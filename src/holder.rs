//! The two-party holder: gates deposits, enforces the lockup, honours
//! ragequit and emergency withdrawal, and distributes what the pooler
//! returns.
use crate::bank::{bank_send, push_send, sends_view, BankSend, Coin, SendView};
use crate::decimal::{Decimal, DECIMAL_FRACTIONAL};
use crate::expiry::{expired, precedes, BlockInfo, Expiration};
use crate::keyed::{find_key, keys_are_distinct, keys_distinct, lookup};
use crate::split::{
    dist_plan, fallback_plan, lemma_dist_some, lemma_penalized_keys, share_sum, splits_penalized,
    DenomSplits, SplitConfig, SplitError,
};
use vstd::prelude::*;

verus! {

/// Where the holder is in its lifecycle.
#[derive(Clone, Copy, Debug, PartialEq, Eq, Structural)]
pub enum ContractState {
    Instantiated,
    Active,
    Expired,
    Ragequit,
    Complete,
}

/// How the position is shared out on a claim.
#[derive(Clone, Copy, Debug, PartialEq, Eq, Structural)]
pub enum CovenantType {
    /// Each party withdraws its allocation of the position.
    Share,
    /// The whole position goes out through the per-denomination splits.
    Side,
}

/// One side of the covenant.
#[derive(Clone, Debug)]
pub struct TwoPartyPolCovenantParty {
    /// What the party must deposit.
    pub contribution: Coin,
    /// The principal that may claim or ragequit for the party.
    pub addr: String,
    /// The party's claim against the position.
    pub allocation: Decimal,
    /// Where the party's payouts go.
    pub router: String,
}

#[derive(Clone, Debug)]
pub struct TwoPartyPolCovenantConfig {
    pub party_a: TwoPartyPolCovenantParty,
    pub party_b: TwoPartyPolCovenantParty,
    pub covenant_type: CovenantType,
}

#[derive(Clone, Copy, Debug, PartialEq, Eq, Structural)]
pub struct RagequitTerms {
    /// The share a ragequitting party leaves to the other.
    pub penalty: Decimal,
}

#[derive(Clone, Copy, Debug, PartialEq, Eq, Structural)]
pub enum RagequitConfig {
    Disabled,
    Enabled(RagequitTerms),
}

/// The withdrawal the holder awaits from the pooler.
#[derive(Clone, Debug)]
pub enum WithdrawState {
    Processing { claimer_addr: String },
    ProcessingRagequit { claimer_addr: String, terms: RagequitTerms },
    Emergency,
}

/// A request to the pooler to withdraw a part of the position; `None` is
/// all of it.
#[derive(Clone, Copy, Debug, PartialEq, Eq, Structural)]
pub struct WithdrawRequest {
    pub percentage: Option<Decimal>,
}

/// What a holder operation sends out.
#[derive(Debug)]
pub struct HolderResponse {
    pub messages: Vec<BankSend>,
    pub withdraw: Option<WithdrawRequest>,
}

#[derive(Clone, Copy, Debug, PartialEq, Eq, Structural)]
pub enum HolderError {
    Unauthorized,
    NotClock,
    NotActive,
    Expired,
    RagequitDisabled,
    InsufficientDeposits,
    WithdrawAlreadyStarted,
    WithdrawStateNotStarted,
    ClaimError,
    DepositDeadlineValidationError,
    LockupValidationError,
    RagequitPenaltyOutOfRange,
    RagequitPenaltyExceedsPartyAllocation,
    AllocationsDoNotSumToOne,
    PartiesNotDistinct,
    SplitMisconfig,
    Split(SplitError),
}

/// Everything a holder is created from.
#[derive(Clone, Debug)]
pub struct InstantiateMsg {
    pub clock_address: String,
    pub liquid_pooler_address: String,
    pub emergency_committee: Option<String>,
    pub lockup_config: Expiration,
    pub deposit_deadline: Expiration,
    pub ragequit_config: RagequitConfig,
    pub covenant_config: TwoPartyPolCovenantConfig,
    pub splits: Vec<(String, SplitConfig)>,
    pub fallback_split: Option<SplitConfig>,
}

#[derive(Debug)]
pub struct Holder {
    pub clock_address: String,
    pub liquid_pooler_address: String,
    pub emergency_committee: Option<String>,
    pub lockup_config: Expiration,
    pub deposit_deadline: Expiration,
    pub ragequit_config: RagequitConfig,
    pub covenant_config: TwoPartyPolCovenantConfig,
    pub denom_splits: DenomSplits,
    pub contract_state: ContractState,
    pub withdraw_state: Option<WithdrawState>,
}

/// Which party a principal is.
#[derive(Clone, Copy, Debug, PartialEq, Eq, Structural)]
pub enum PartyRole {
    A,
    B,
}

/// The split lists each receiver once, its shares sum to one, and it pays
/// only the two routers.
pub open spec fn split_ok(sc: SplitConfig, ra: Seq<char>, rb: Seq<char>) -> bool {
    &&& sc.wf()
    &&& share_sum(sc.receivers@) == DECIMAL_FRACTIONAL
    &&& forall|k: int|
        0 <= k < sc.receivers@.len() ==> (#[trigger] sc.receivers@[k]).0@ == ra
            || sc.receivers@[k].0@ == rb
}

pub open spec fn splits_ok(ds: DenomSplits, ra: Seq<char>, rb: Seq<char>) -> bool {
    &&& keys_distinct(ds.explicit_splits@)
    &&& forall|i: int|
        0 <= i < ds.explicit_splits@.len() ==> split_ok(
            (#[trigger] ds.explicit_splits@[i]).1,
            ra,
            rb,
        )
    &&& match ds.fallback_split {
        Some(f) => f.wf() && share_sum(f.receivers@) == DECIMAL_FRACTIONAL,
        None => true,
    }
}

pub open spec fn alloc_sum(c: TwoPartyPolCovenantConfig) -> int {
    c.party_a.allocation.atomics + c.party_b.allocation.atomics
}

pub open spec fn penalty_of(rc: RagequitConfig) -> Option<int> {
    match rc {
        RagequitConfig::Enabled(t) => Some(t.penalty.atomics as int),
        RagequitConfig::Disabled => None,
    }
}

pub open spec fn role_of(c: TwoPartyPolCovenantConfig, addr: Seq<char>) -> Option<PartyRole> {
    if addr == c.party_a.addr@ {
        Some(PartyRole::A)
    } else if addr == c.party_b.addr@ {
        Some(PartyRole::B)
    } else {
        None
    }
}

pub open spec fn party(c: TwoPartyPolCovenantConfig, r: PartyRole) -> TwoPartyPolCovenantParty {
    match r {
        PartyRole::A => c.party_a,
        PartyRole::B => c.party_b,
    }
}

pub open spec fn other(r: PartyRole) -> PartyRole {
    match r {
        PartyRole::A => PartyRole::B,
        PartyRole::B => PartyRole::A,
    }
}

pub open spec fn claimer_of(ws: WithdrawState) -> Option<Seq<char>> {
    match ws {
        WithdrawState::Processing { claimer_addr } => Some(claimer_addr@),
        WithdrawState::ProcessingRagequit { claimer_addr, .. } => Some(claimer_addr@),
        WithdrawState::Emergency => None,
    }
}

/// The covenant with each party's allocation replaced.
pub open spec fn with_allocations(
    c: TwoPartyPolCovenantConfig,
    a: int,
    b: int,
) -> TwoPartyPolCovenantConfig {
    TwoPartyPolCovenantConfig {
        party_a: TwoPartyPolCovenantParty {
            allocation: Decimal { atomics: a as u128 },
            ..c.party_a
        },
        party_b: TwoPartyPolCovenantParty {
            allocation: Decimal { atomics: b as u128 },
            ..c.party_b
        },
        ..c
    }
}

/// Refunds of the held contribution balances to each party's router,
/// skipping empty ones.
pub open spec fn refund_plan(c: TwoPartyPolCovenantConfig, bal_a: u128, bal_b: u128) -> Seq<
    SendView,
> {
    let a = if bal_a > 0 {
        seq![(c.party_a.router@, c.party_a.contribution.denom@, bal_a as int)]
    } else {
        Seq::<SendView>::empty()
    };
    let b = if bal_b > 0 {
        seq![(c.party_b.router@, c.party_b.contribution.denom@, bal_b as int)]
    } else {
        Seq::<SendView>::empty()
    };
    a + b
}

/// What makes an instantiation fail, in the order it is checked.
pub open spec fn instantiate_error(msg: InstantiateMsg, block: BlockInfo) -> Option<HolderError> {
    let c = msg.covenant_config;
    if expired(msg.deposit_deadline, block) {
        Some(HolderError::DepositDeadlineValidationError)
    } else if expired(msg.lockup_config, block) {
        Some(HolderError::LockupValidationError)
    } else if !precedes(msg.deposit_deadline, msg.lockup_config) {
        Some(HolderError::DepositDeadlineValidationError)
    } else if c.party_a.addr@ == c.party_b.addr@ || c.party_a.router@ == c.party_b.router@ {
        Some(HolderError::PartiesNotDistinct)
    } else if alloc_sum(c) != DECIMAL_FRACTIONAL {
        Some(HolderError::AllocationsDoNotSumToOne)
    } else if penalty_of(msg.ragequit_config) is Some && penalty_of(msg.ragequit_config).unwrap()
        >= DECIMAL_FRACTIONAL {
        Some(HolderError::RagequitPenaltyOutOfRange)
    } else if penalty_of(msg.ragequit_config) is Some && (penalty_of(msg.ragequit_config).unwrap()
        >= c.party_a.allocation.atomics || penalty_of(msg.ragequit_config).unwrap()
        >= c.party_b.allocation.atomics) {
        Some(HolderError::RagequitPenaltyExceedsPartyAllocation)
    } else if !splits_accepted(
        DenomSplits { explicit_splits: msg.splits, fallback_split: msg.fallback_split },
        c.party_a.router@,
        c.party_b.router@,
    ) {
        Some(HolderError::SplitMisconfig)
    } else {
        None
    }
}

/// The splits are sound and every explicit split names both routers.
pub open spec fn splits_accepted(ds: DenomSplits, ra: Seq<char>, rb: Seq<char>) -> bool {
    &&& splits_ok(ds, ra, rb)
    &&& forall|i: int|
        0 <= i < ds.explicit_splits@.len() ==> {
            &&& lookup((#[trigger] ds.explicit_splits@[i]).1.receivers@, ra) is Some
            &&& lookup(ds.explicit_splits@[i].1.receivers@, rb) is Some
        }
}

fn check_split(sc: &SplitConfig, ra: &String, rb: &String) -> (r: bool)
    ensures
        r == (split_ok(*sc, ra@, rb@) && lookup(sc.receivers@, ra@) is Some && lookup(
            sc.receivers@,
            rb@,
        ) is Some),
{
    if !keys_are_distinct(&sc.receivers) {
        return false;
    }
    if sc.validate_shares().is_err() {
        return false;
    }
    let mut i: usize = 0;
    while i < sc.receivers.len()
        invariant
            i <= sc.receivers@.len(),
            forall|k: int|
                0 <= k < i ==> (#[trigger] sc.receivers@[k]).0@ == ra@ || sc.receivers@[k].0@
                    == rb@,
        decreases sc.receivers@.len() - i,
    {
        if sc.receivers[i].0 != *ra && sc.receivers[i].0 != *rb {
            return false;
        }
        i = i + 1;
    }
    find_key(&sc.receivers, ra).is_some() && find_key(&sc.receivers, rb).is_some()
}

fn check_splits(ds: &DenomSplits, ra: &String, rb: &String) -> (r: bool)
    ensures
        r == splits_accepted(*ds, ra@, rb@),
{
    if !keys_are_distinct(&ds.explicit_splits) {
        return false;
    }
    let mut i: usize = 0;
    while i < ds.explicit_splits.len()
        invariant
            i <= ds.explicit_splits@.len(),
            forall|k: int|
                0 <= k < i ==> {
                    &&& split_ok((#[trigger] ds.explicit_splits@[k]).1, ra@, rb@)
                    &&& lookup(ds.explicit_splits@[k].1.receivers@, ra@) is Some
                    &&& lookup(ds.explicit_splits@[k].1.receivers@, rb@) is Some
                },
        decreases ds.explicit_splits@.len() - i,
    {
        if !check_split(&ds.explicit_splits[i].1, ra, rb) {
            return false;
        }
        i = i + 1;
    }
    match &ds.fallback_split {
        Some(f) => keys_are_distinct(&f.receivers) && f.validate_shares().is_ok(),
        None => true,
    }
}

/// Why a tick fails, if it does.
pub open spec fn tick_error(
    h: Holder,
    sender: Seq<char>,
    block: BlockInfo,
    bal_a: u128,
    bal_b: u128,
) -> Option<HolderError> {
    let c = h.covenant_config;
    if sender != h.clock_address@ {
        Some(HolderError::NotClock)
    } else if h.contract_state == ContractState::Instantiated && !expired(h.deposit_deadline, block)
        && (bal_a < c.party_a.contribution.amount || bal_b < c.party_b.contribution.amount) {
        Some(HolderError::InsufficientDeposits)
    } else {
        None
    }
}

/// Why a claim fails, if it does.
pub open spec fn claim_error(h: Holder, sender: Seq<char>) -> Option<HolderError> {
    if role_of(h.covenant_config, sender) is None {
        Some(HolderError::Unauthorized)
    } else if h.contract_state != ContractState::Expired && h.contract_state
        != ContractState::Ragequit {
        Some(HolderError::ClaimError)
    } else if h.withdraw_state is Some {
        Some(HolderError::WithdrawAlreadyStarted)
    } else {
        None
    }
}

/// Why a ragequit fails, if it does.
pub open spec fn ragequit_error(h: Holder, sender: Seq<char>, block: BlockInfo) -> Option<
    HolderError,
> {
    if h.ragequit_config == RagequitConfig::Disabled {
        Some(HolderError::RagequitDisabled)
    } else if h.contract_state != ContractState::Active {
        Some(HolderError::NotActive)
    } else if expired(h.lockup_config, block) {
        Some(HolderError::Expired)
    } else if role_of(h.covenant_config, sender) is None {
        Some(HolderError::Unauthorized)
    } else if h.withdraw_state is Some {
        Some(HolderError::WithdrawAlreadyStarted)
    } else {
        None
    }
}

/// The allocations after `r` has taken its part: none left for `r`, and
/// the whole position for the other party while it still has a claim.
pub open spec fn after_claim(c: TwoPartyPolCovenantConfig, r: PartyRole) -> TwoPartyPolCovenantConfig {
    let theirs = if party(c, other(r)).allocation.atomics != 0 {
        DECIMAL_FRACTIONAL as int
    } else {
        0
    };
    match r {
        PartyRole::A => with_allocations(c, 0, theirs),
        PartyRole::B => with_allocations(c, theirs, 0),
    }
}

/// Some explicit split cannot take the penalty.
pub open spec fn penalty_fails(ds: DenomSplits, rq: Seq<char>, cp: Seq<char>, p: int) -> bool {
    exists|i: int|
        0 <= i < ds.explicit_splits@.len() && (!crate::split::penalty_applies(
            #[trigger] ds.explicit_splits@[i].1.receivers@,
            rq,
            cp,
            p,
        ) || share_sum(crate::split::penalized(ds.explicit_splits@[i].1.receivers@, rq, cp, p))
            != DECIMAL_FRACTIONAL)
}

/// Allocations after a ragequit: none for `r`, all for the other party.
pub open spec fn after_ragequit(c: TwoPartyPolCovenantConfig, r: PartyRole) -> TwoPartyPolCovenantConfig {
    match r {
        PartyRole::A => with_allocations(c, 0, DECIMAL_FRACTIONAL as int),
        PartyRole::B => with_allocations(c, DECIMAL_FRACTIONAL as int, 0),
    }
}

/// The holder and the transfers after the pooler has returned `coins` for
/// the withdrawal in flight, with `ds` as the splits that then apply.
pub open spec fn settle(h: Holder, ds: DenomSplits, coins: Seq<Coin>) -> (Holder, Seq<SendView>) {
    let c = h.covenant_config;
    let all_out = (
        Holder {
            covenant_config: with_allocations(c, 0, 0),
            contract_state: ContractState::Complete,
            withdraw_state: None,
            denom_splits: ds,
            ..h
        },
        dist_plan(ds, coins, None).unwrap(),
    );
    match h.withdraw_state {
        Some(WithdrawState::Processing { claimer_addr }) => {
            let r = role_of(c, claimer_addr@).unwrap();
            match c.covenant_type {
                CovenantType::Share => (
                    Holder {
                        covenant_config: after_claim(c, r),
                        contract_state: if party(c, other(r)).allocation.atomics != 0 {
                            h.contract_state
                        } else {
                            ContractState::Complete
                        },
                        withdraw_state: None,
                        denom_splits: ds,
                        ..h
                    },
                    dist_plan(ds, coins, Some(party(c, r).router@)).unwrap(),
                ),
                CovenantType::Side => all_out,
            }
        },
        Some(WithdrawState::ProcessingRagequit { claimer_addr, .. }) => {
            let r = role_of(c, claimer_addr@).unwrap();
            match c.covenant_type {
                CovenantType::Share => (
                    Holder {
                        covenant_config: after_ragequit(c, r),
                        contract_state: ContractState::Ragequit,
                        withdraw_state: None,
                        denom_splits: ds,
                        ..h
                    },
                    dist_plan(ds, coins, Some(party(c, r).router@)).unwrap(),
                ),
                CovenantType::Side => all_out,
            }
        },
        _ => all_out,
    }
}

/// For a ragequit in flight: the quitting party's router, the other
/// party's router, and the penalty.
pub open spec fn ragequit_terms(h: Holder) -> Option<(Seq<char>, Seq<char>, int)> {
    match h.withdraw_state {
        Some(WithdrawState::ProcessingRagequit { claimer_addr, terms }) => {
            let r = role_of(h.covenant_config, claimer_addr@).unwrap();
            Some(
                (
                    party(h.covenant_config, r).router@,
                    party(h.covenant_config, other(r)).router@,
                    terms.penalty.atomics as int,
                ),
            )
        },
        _ => None,
    }
}

/// Moving a penalty keeps splits sound.
pub proof fn lemma_penalized_splits_ok(
    old: DenomSplits,
    new: DenomSplits,
    ra: Seq<char>,
    rb: Seq<char>,
    rq: Seq<char>,
    cp: Seq<char>,
    p: int,
)
    requires
        splits_ok(old, ra, rb),
        splits_penalized(old.explicit_splits@, new.explicit_splits@, rq, cp, p),
        new.fallback_split == old.fallback_split,
    ensures
        splits_ok(new, ra, rb),
{
    let o = old.explicit_splits@;
    let n = new.explicit_splits@;
    assert forall|i: int, j: int| 0 <= i < n.len() && 0 <= j < n.len() && i != j implies n[i].0@
        != n[j].0@ by {
        assert(n[i].0@ == o[i].0@);
        assert(n[j].0@ == o[j].0@);
    }
    assert forall|i: int| 0 <= i < n.len() implies split_ok((#[trigger] n[i]).1, ra, rb) by {
        assert(n[i].0@ == o[i].0@);
        let s = o[i].1.receivers@;
        lemma_penalized_keys(s, rq, cp, p);
        let t = n[i].1.receivers@;
        assert(split_ok(o[i].1, ra, rb));
        assert forall|a: int, b: int| 0 <= a < t.len() && 0 <= b < t.len() && a != b implies t[a].0@
            != t[b].0@ by {
            assert(t[a].0 == s[a].0);
            assert(t[b].0 == s[b].0);
        }
        assert forall|k: int| 0 <= k < t.len() implies (#[trigger] t[k]).0@ == ra || t[k].0@ == rb by {
            assert(t[k].0 == s[k].0);
        }
    }
}

impl Holder {
    /// The holder's invariant.
    pub open spec fn wf(&self) -> bool {
        let c = self.covenant_config;
        &&& c.party_a.addr@ != c.party_b.addr@
        &&& c.party_a.router@ != c.party_b.router@
        &&& alloc_sum(c) == 0 || alloc_sum(c) == DECIMAL_FRACTIONAL
        &&& splits_ok(self.denom_splits, c.party_a.router@, c.party_b.router@)
        &&& match penalty_of(self.ragequit_config) {
            Some(p) => p < DECIMAL_FRACTIONAL,
            None => true,
        }
        &&& (self.contract_state == ContractState::Instantiated || self.contract_state
            == ContractState::Active) ==> {
            &&& alloc_sum(c) == DECIMAL_FRACTIONAL
            &&& match penalty_of(self.ragequit_config) {
                Some(p) => p < c.party_a.allocation.atomics && p < c.party_b.allocation.atomics,
                None => true,
            }
        }
        &&& match self.withdraw_state {
            Some(ws) => match claimer_of(ws) {
                Some(cl) => role_of(c, cl) is Some,
                None => true,
            },
            None => true,
        }
        &&& match self.withdraw_state {
            Some(WithdrawState::ProcessingRagequit { terms, .. }) => terms.penalty.atomics
                < DECIMAL_FRACTIONAL,
            Some(WithdrawState::Processing { .. }) => alloc_sum(c) == DECIMAL_FRACTIONAL && (
            self.contract_state == ContractState::Expired || self.contract_state
                == ContractState::Ragequit),
            _ => true,
        }
    }

    fn role_of(&self, addr: &String) -> (r: Option<PartyRole>)
        ensures
            r == role_of(self.covenant_config, addr@),
    {
        if *addr == self.covenant_config.party_a.addr {
            Some(PartyRole::A)
        } else if *addr == self.covenant_config.party_b.addr {
            Some(PartyRole::B)
        } else {
            None
        }
    }

    fn party(&self, r: PartyRole) -> (p: &TwoPartyPolCovenantParty)
        ensures
            *p == party(self.covenant_config, r),
    {
        match r {
            PartyRole::A => &self.covenant_config.party_a,
            PartyRole::B => &self.covenant_config.party_b,
        }
    }

    fn set_allocations(&mut self, a: u128, b: u128)
        ensures
            *final(self) == (Holder {
                covenant_config: with_allocations(old(self).covenant_config, a as int, b as int),
                ..*old(self)
            }),
    {
        self.covenant_config.party_a.allocation = Decimal { atomics: a };
        self.covenant_config.party_b.allocation = Decimal { atomics: b };
    }
}

impl Holder {
    /// Creates a holder in `Instantiated` from a validated configuration.
    pub fn instantiate(msg: InstantiateMsg, block: &BlockInfo) -> (r: Result<Holder, HolderError>)
        ensures
            r is Ok <==> instantiate_error(msg, *block) is None,
            match r {
                Ok(h) => {
                    &&& h.wf()
                    &&& h.contract_state == ContractState::Instantiated
                    &&& h.withdraw_state is None
                    &&& h.clock_address == msg.clock_address
                    &&& h.liquid_pooler_address == msg.liquid_pooler_address
                    &&& h.emergency_committee == msg.emergency_committee
                    &&& h.lockup_config == msg.lockup_config
                    &&& h.deposit_deadline == msg.deposit_deadline
                    &&& h.ragequit_config == msg.ragequit_config
                    &&& h.covenant_config == msg.covenant_config
                    &&& h.denom_splits == (DenomSplits {
                        explicit_splits: msg.splits,
                        fallback_split: msg.fallback_split,
                    })
                },
                Err(e) => instantiate_error(msg, *block) == Some(e),
            },
    {
        if msg.deposit_deadline.is_expired(block) {
            return Err(HolderError::DepositDeadlineValidationError);
        }
        if msg.lockup_config.is_expired(block) {
            return Err(HolderError::LockupValidationError);
        }
        if !msg.deposit_deadline.precedes(&msg.lockup_config) {
            return Err(HolderError::DepositDeadlineValidationError);
        }
        let c = &msg.covenant_config;
        if c.party_a.addr == c.party_b.addr || c.party_a.router == c.party_b.router {
            return Err(HolderError::PartiesNotDistinct);
        }
        let a = c.party_a.allocation.atomics;
        let b = c.party_b.allocation.atomics;
        if a > DECIMAL_FRACTIONAL || b != DECIMAL_FRACTIONAL - a {
            return Err(HolderError::AllocationsDoNotSumToOne);
        }
        if let RagequitConfig::Enabled(terms) = msg.ragequit_config {
            if terms.penalty.atomics >= DECIMAL_FRACTIONAL {
                return Err(HolderError::RagequitPenaltyOutOfRange);
            }
            if terms.penalty.atomics >= a || terms.penalty.atomics >= b {
                return Err(HolderError::RagequitPenaltyExceedsPartyAllocation);
            }
        }
        let denom_splits = DenomSplits {
            explicit_splits: msg.splits,
            fallback_split: msg.fallback_split,
        };
        if !check_splits(&denom_splits, &msg.covenant_config.party_a.router, &msg.covenant_config.party_b.router) {
            return Err(HolderError::SplitMisconfig);
        }
        Ok(Holder {
            clock_address: msg.clock_address,
            liquid_pooler_address: msg.liquid_pooler_address,
            emergency_committee: msg.emergency_committee,
            lockup_config: msg.lockup_config,
            deposit_deadline: msg.deposit_deadline,
            ragequit_config: msg.ragequit_config,
            covenant_config: msg.covenant_config,
            denom_splits,
            contract_state: ContractState::Instantiated,
            withdraw_state: None,
        })
    }

    fn refund_messages(&self, bal_a: u128, bal_b: u128) -> (r: Vec<BankSend>)
        ensures
            sends_view(r@) == refund_plan(self.covenant_config, bal_a, bal_b),
    {
        let c = &self.covenant_config;
        let mut out: Vec<BankSend> = Vec::new();
        if bal_a > 0 {
            push_send(&mut out, bank_send(&c.party_a.router, &c.party_a.contribution.denom, bal_a));
        }
        if bal_b > 0 {
            push_send(&mut out, bank_send(&c.party_b.router, &c.party_b.contribution.denom, bal_b));
        }
        proof {
            assert(sends_view(out@) =~= refund_plan(self.covenant_config, bal_a, bal_b));
        }
        out
    }

    /// Advances the lifecycle. `bal_a` and `bal_b` are the holder's balances
    /// of the two parties' contribution denominations.
    pub fn tick(&mut self, sender: &String, block: &BlockInfo, bal_a: u128, bal_b: u128) -> (r:
        Result<HolderResponse, HolderError>)
        requires
            old(self).wf(),
        ensures
            final(self).wf(),
            r is Err <==> tick_error(*old(self), sender@, *block, bal_a, bal_b) is Some,
            match r {
                Err(e) => *final(self) == *old(self) && tick_error(
                    *old(self),
                    sender@,
                    *block,
                    bal_a,
                    bal_b,
                ) == Some(e),
                Ok(resp) => resp.withdraw is None && match old(self).contract_state {
                    ContractState::Instantiated => if expired(old(self).deposit_deadline, *block) {
                        &&& *final(self) == (Holder {
                            contract_state: ContractState::Complete,
                            ..*old(self)
                        })
                        &&& sends_view(resp.messages@) == refund_plan(
                            old(self).covenant_config,
                            bal_a,
                            bal_b,
                        )
                    } else {
                        &&& *final(self) == (Holder {
                            contract_state: ContractState::Active,
                            ..*old(self)
                        })
                        &&& sends_view(resp.messages@) == seq![
                            (
                                old(self).liquid_pooler_address@,
                                old(self).covenant_config.party_a.contribution.denom@,
                                bal_a as int,
                            ),
                            (
                                old(self).liquid_pooler_address@,
                                old(self).covenant_config.party_b.contribution.denom@,
                                bal_b as int,
                            ),
                        ]
                    },
                    ContractState::Active => resp.messages@.len() == 0 && *final(self) == if expired(
                        old(self).lockup_config,
                        *block,
                    ) {
                        Holder { contract_state: ContractState::Expired, ..*old(self) }
                    } else {
                        *old(self)
                    },
                    ContractState::Expired => resp.messages@.len() == 0 && *final(self) == if alloc_sum(
                        old(self).covenant_config,
                    ) == 0 {
                        Holder { contract_state: ContractState::Complete, ..*old(self) }
                    } else {
                        *old(self)
                    },
                    ContractState::Ragequit => resp.messages@.len() == 0 && *final(self)
                        == *old(self),
                    ContractState::Complete => *final(self) == *old(self) && sends_view(
                        resp.messages@,
                    ) == refund_plan(old(self).covenant_config, bal_a, bal_b),
                },
            },
    {
        if *sender != self.clock_address {
            return Err(HolderError::NotClock);
        }
        match self.contract_state {
            ContractState::Instantiated => {
                if self.deposit_deadline.is_expired(block) {
                    let messages = self.refund_messages(bal_a, bal_b);
                    self.contract_state = ContractState::Complete;
                    return Ok(HolderResponse { messages, withdraw: None });
                }
                let c = &self.covenant_config;
                if bal_a < c.party_a.contribution.amount || bal_b < c.party_b.contribution.amount {
                    return Err(HolderError::InsufficientDeposits);
                }
                let mut messages: Vec<BankSend> = Vec::new();
                push_send(&mut messages, bank_send(&self.liquid_pooler_address, &c.party_a.contribution.denom, bal_a));
                push_send(&mut messages, bank_send(&self.liquid_pooler_address, &c.party_b.contribution.denom, bal_b));
                proof {
                    assert(sends_view(messages@) =~= seq![
                        (
                            self.liquid_pooler_address@,
                            self.covenant_config.party_a.contribution.denom@,
                            bal_a as int,
                        ),
                        (
                            self.liquid_pooler_address@,
                            self.covenant_config.party_b.contribution.denom@,
                            bal_b as int,
                        ),
                    ]);
                }
                self.contract_state = ContractState::Active;
                Ok(HolderResponse { messages, withdraw: None })
            },
            ContractState::Active => {
                if self.lockup_config.is_expired(block) {
                    self.contract_state = ContractState::Expired;
                }
                Ok(HolderResponse { messages: Vec::new(), withdraw: None })
            },
            ContractState::Expired => {
                if self.covenant_config.party_a.allocation.is_zero()
                    && self.covenant_config.party_b.allocation.is_zero() {
                    self.contract_state = ContractState::Complete;
                }
                Ok(HolderResponse { messages: Vec::new(), withdraw: None })
            },
            ContractState::Ragequit => Ok(HolderResponse { messages: Vec::new(), withdraw: None }),
            ContractState::Complete => {
                let messages = self.refund_messages(bal_a, bal_b);
                Ok(HolderResponse { messages, withdraw: None })
            },
        }
    }
}

impl Holder {
    /// A party asks for its part of the position once the lockup is over or
    /// after a ragequit.
    pub fn claim(&mut self, sender: &String) -> (r: Result<HolderResponse, HolderError>)
        requires
            old(self).wf(),
        ensures
            final(self).wf(),
            r is Err <==> claim_error(*old(self), sender@) is Some,
            match r {
                Err(e) => *final(self) == *old(self) && claim_error(*old(self), sender@) == Some(e),
                Ok(resp) => resp.messages@.len() == 0 && if alloc_sum(old(self).covenant_config)
                    == 0 {
                    &&& resp.withdraw is None
                    &&& *final(self) == (Holder {
                        contract_state: ContractState::Complete,
                        ..*old(self)
                    })
                } else {
                    &&& *final(self) == (Holder {
                        withdraw_state: Some(WithdrawState::Processing { claimer_addr: *sender }),
                        ..*old(self)
                    })
                    &&& resp.withdraw == Some(
                        WithdrawRequest {
                            percentage: match old(self).covenant_config.covenant_type {
                                CovenantType::Share => Some(
                                    party(
                                        old(self).covenant_config,
                                        role_of(old(self).covenant_config, sender@).unwrap(),
                                    ).allocation,
                                ),
                                CovenantType::Side => None,
                            },
                        },
                    )
                },
            },
    {
        let role = match self.role_of(sender) {
            Some(r) => r,
            None => return Err(HolderError::Unauthorized),
        };
        if self.contract_state != ContractState::Expired && self.contract_state
            != ContractState::Ragequit {
            return Err(HolderError::ClaimError);
        }
        if self.withdraw_state.is_some() {
            return Err(HolderError::WithdrawAlreadyStarted);
        }
        if self.covenant_config.party_a.allocation.is_zero()
            && self.covenant_config.party_b.allocation.is_zero() {
            self.contract_state = ContractState::Complete;
            return Ok(HolderResponse { messages: Vec::new(), withdraw: None });
        }
        let percentage = match self.covenant_config.covenant_type {
            CovenantType::Share => Some(self.party(role).allocation),
            CovenantType::Side => None,
        };
        self.withdraw_state = Some(WithdrawState::Processing { claimer_addr: sender.clone() });
        Ok(HolderResponse { messages: Vec::new(), withdraw: Some(WithdrawRequest { percentage }) })
    }

    /// A party leaves early, before the lockup, giving up the penalty.
    pub fn ragequit(&mut self, sender: &String, block: &BlockInfo) -> (r: Result<
        HolderResponse,
        HolderError,
    >)
        requires
            old(self).wf(),
        ensures
            final(self).wf(),
            r is Err <==> ragequit_error(*old(self), sender@, *block) is Some,
            match r {
                Err(e) => *final(self) == *old(self) && ragequit_error(*old(self), sender@, *block)
                    == Some(e),
                Ok(resp) => {
                    let terms = match old(self).ragequit_config {
                        RagequitConfig::Enabled(t) => t,
                        RagequitConfig::Disabled => RagequitTerms { penalty: Decimal { atomics: 0 } },
                    };
                    let mine = party(
                        old(self).covenant_config,
                        role_of(old(self).covenant_config, sender@).unwrap(),
                    ).allocation.atomics;
                    &&& resp.messages@.len() == 0
                    &&& *final(self) == (Holder {
                        withdraw_state: Some(
                            WithdrawState::ProcessingRagequit { claimer_addr: *sender, terms },
                        ),
                        ..*old(self)
                    })
                    &&& resp.withdraw == Some(
                        WithdrawRequest {
                            percentage: match old(self).covenant_config.covenant_type {
                                CovenantType::Share => Some(
                                    Decimal { atomics: (mine - terms.penalty.atomics) as u128 },
                                ),
                                CovenantType::Side => None,
                            },
                        },
                    )
                },
            },
    {
        let terms = match self.ragequit_config {
            RagequitConfig::Disabled => return Err(HolderError::RagequitDisabled),
            RagequitConfig::Enabled(t) => t,
        };
        if self.contract_state != ContractState::Active {
            return Err(HolderError::NotActive);
        }
        if self.lockup_config.is_expired(block) {
            return Err(HolderError::Expired);
        }
        let role = match self.role_of(sender) {
            Some(r) => r,
            None => return Err(HolderError::Unauthorized),
        };
        if self.withdraw_state.is_some() {
            return Err(HolderError::WithdrawAlreadyStarted);
        }
        let percentage = match self.covenant_config.covenant_type {
            CovenantType::Share => Some(
                Decimal { atomics: self.party(role).allocation.atomics - terms.penalty.atomics },
            ),
            CovenantType::Side => None,
        };
        self.withdraw_state = Some(
            WithdrawState::ProcessingRagequit { claimer_addr: sender.clone(), terms },
        );
        Ok(HolderResponse { messages: Vec::new(), withdraw: Some(WithdrawRequest { percentage }) })
    }

    /// The emergency committee withdraws the whole position.
    pub fn emergency_withdraw(&mut self, sender: &String) -> (r: Result<
        HolderResponse,
        HolderError,
    >)
        requires
            old(self).wf(),
        ensures
            final(self).wf(),
            match r {
                Err(e) => *final(self) == *old(self) && if old(self).emergency_committee is None
                    || old(self).emergency_committee.unwrap()@ != sender@ {
                    e == HolderError::Unauthorized
                } else {
                    old(self).withdraw_state is Some && e == HolderError::WithdrawAlreadyStarted
                },
                Ok(resp) => {
                    &&& old(self).emergency_committee is Some
                    &&& old(self).emergency_committee.unwrap()@ == sender@
                    &&& old(self).withdraw_state is None
                    &&& resp.messages@.len() == 0
                    &&& resp.withdraw == Some(WithdrawRequest { percentage: None })
                    &&& *final(self) == (Holder {
                        withdraw_state: Some(WithdrawState::Emergency),
                        ..*old(self)
                    })
                },
            },
    {
        match &self.emergency_committee {
            Some(committee) => {
                if *committee != *sender {
                    return Err(HolderError::Unauthorized);
                }
            },
            None => return Err(HolderError::Unauthorized),
        }
        if self.withdraw_state.is_some() {
            return Err(HolderError::WithdrawAlreadyStarted);
        }
        self.withdraw_state = Some(WithdrawState::Emergency);
        Ok(HolderResponse {
            messages: Vec::new(),
            withdraw: Some(WithdrawRequest { percentage: None }),
        })
    }

    /// The pooler reports that the withdrawal failed; it may be asked again.
    pub fn withdraw_failed(&mut self, sender: &String) -> (r: Result<(), HolderError>)
        requires
            old(self).wf(),
        ensures
            final(self).wf(),
            match r {
                Err(e) => *final(self) == *old(self) && if sender@
                    != old(self).liquid_pooler_address@ {
                    e == HolderError::Unauthorized
                } else {
                    old(self).withdraw_state is None && e == HolderError::WithdrawStateNotStarted
                },
                Ok(_) => {
                    &&& sender@ == old(self).liquid_pooler_address@
                    &&& old(self).withdraw_state is Some
                    &&& *final(self) == (Holder { withdraw_state: None, ..*old(self) })
                },
            },
    {
        if *sender != self.liquid_pooler_address {
            return Err(HolderError::Unauthorized);
        }
        if self.withdraw_state.is_none() {
            return Err(HolderError::WithdrawStateNotStarted);
        }
        self.withdraw_state = None;
        Ok(())
    }

    /// Sends held coins of denominations without an explicit split through
    /// the fallback split.
    pub fn distribute_fallback(&self, coins: &Vec<Coin>) -> (r: Result<Vec<BankSend>, HolderError>)
        ensures
            match r {
                Ok(v) => fallback_plan(self.denom_splits, coins@) == Ok::<
                    Seq<SendView>,
                    SplitError,
                >(sends_view(v@)),
                Err(e) => exists|se: SplitError|
                    fallback_plan(self.denom_splits, coins@) == Err::<Seq<SendView>, SplitError>(se)
                        && e == HolderError::Split(se),
            },
    {
        match self.denom_splits.distribute_fallback(coins) {
            Ok(v) => Ok(v),
            Err(e) => Err(HolderError::Split(e)),
        }
    }
}

impl Holder {
    /// The pooler hands over what it withdrew: pays it out for the
    /// withdrawal in flight and updates the allocations and the state.
    pub fn distribute(&mut self, sender: &String, coins: &Vec<Coin>) -> (r: Result<
        HolderResponse,
        HolderError,
    >)
        requires
            old(self).wf(),
        ensures
            final(self).wf(),
            match r {
                Err(e) => *final(self) == *old(self) && if sender@
                    != old(self).liquid_pooler_address@ {
                    e == HolderError::Unauthorized
                } else if old(self).withdraw_state is None {
                    e == HolderError::WithdrawStateNotStarted
                } else {
                    &&& ragequit_terms(*old(self)) is Some
                    &&& penalty_fails(
                        old(self).denom_splits,
                        ragequit_terms(*old(self)).unwrap().0,
                        ragequit_terms(*old(self)).unwrap().1,
                        ragequit_terms(*old(self)).unwrap().2,
                    )
                    &&& e is Split
                },
                Ok(resp) => {
                    &&& sender@ == old(self).liquid_pooler_address@
                    &&& old(self).withdraw_state is Some
                    &&& resp.withdraw is None
                    &&& match ragequit_terms(*old(self)) {
                        Some(t) => splits_penalized(
                            old(self).denom_splits.explicit_splits@,
                            final(self).denom_splits.explicit_splits@,
                            t.0,
                            t.1,
                            t.2,
                        ) && final(self).denom_splits.fallback_split
                            == old(self).denom_splits.fallback_split,
                        None => final(self).denom_splits == old(self).denom_splits,
                    }
                    &&& settle(*old(self), final(self).denom_splits, coins@) == (
                        *final(self),
                        sends_view(resp.messages@),
                    )
                },
            },
    {
        if *sender != self.liquid_pooler_address {
            return Err(HolderError::Unauthorized);
        }
        let ghost c0 = self.covenant_config;
        // The claiming party, the ragequit penalty if any.
        let (role, penalty): (Option<PartyRole>, Option<Decimal>) = match &self.withdraw_state {
            None => return Err(HolderError::WithdrawStateNotStarted),
            Some(WithdrawState::Processing { claimer_addr }) => (self.role_of(claimer_addr), None),
            Some(WithdrawState::ProcessingRagequit { claimer_addr, terms }) => (
                self.role_of(claimer_addr),
                Some(terms.penalty),
            ),
            Some(WithdrawState::Emergency) => (None, None),
        };
        if let Some(p) = penalty {
            let r = role.unwrap();
            let rq = self.party(r).router.clone();
            let cp = match r {
                PartyRole::A => self.covenant_config.party_b.router.clone(),
                PartyRole::B => self.covenant_config.party_a.router.clone(),
            };
            let ghost ds0 = self.denom_splits;
            assert(ds0.wf()) by {
                assert forall|i: int| 0 <= i < ds0.explicit_splits@.len() implies (#[trigger] ds0.explicit_splits@[i]).1.wf() by {
                    assert(split_ok(ds0.explicit_splits@[i].1, c0.party_a.router@, c0.party_b.router@));
                }
            }
            match self.denom_splits.apply_penalty(p, &rq, &cp) {
                Ok(()) => {},
                Err(e) => return Err(HolderError::Split(e)),
            }
            proof {
                lemma_penalized_splits_ok(
                    ds0,
                    self.denom_splits,
                    c0.party_a.router@,
                    c0.party_b.router@,
                    rq@,
                    cp@,
                    p.atomics as int,
                );
            }
        }
        let ghost ds1 = self.denom_splits;
        proof {
            assert forall|i: int| 0 <= i < ds1.explicit_splits@.len() implies share_sum(
                (#[trigger] ds1.explicit_splits@[i]).1.receivers@,
            ) <= DECIMAL_FRACTIONAL by {
                assert(split_ok(ds1.explicit_splits@[i].1, c0.party_a.router@, c0.party_b.router@));
            }
            lemma_dist_some(ds1, coins@, None);
        }
        let pay_claimer = match role {
            Some(_) => match self.covenant_config.covenant_type {
                CovenantType::Share => true,
                CovenantType::Side => false,
            },
            None => false,
        };
        let messages = if pay_claimer {
            let router = self.party(role.unwrap()).router.clone();
            proof {
                lemma_dist_some(ds1, coins@, Some(router@));
            }
            match self.denom_splits.get_single_receiver_distribution_messages(coins, &router) {
                Ok(v) => v,
                Err(e) => return Err(HolderError::Split(e)),
            }
        } else {
            match self.denom_splits.get_distribution_messages(coins) {
                Ok(v) => v,
                Err(e) => return Err(HolderError::Split(e)),
            }
        };
        if pay_claimer {
            let r = role.unwrap();
            if penalty.is_some() {
                match r {
                    PartyRole::A => self.set_allocations(0, DECIMAL_FRACTIONAL),
                    PartyRole::B => self.set_allocations(DECIMAL_FRACTIONAL, 0),
                }
                self.contract_state = ContractState::Ragequit;
            } else {
                let theirs_left = match r {
                    PartyRole::A => !self.covenant_config.party_b.allocation.is_zero(),
                    PartyRole::B => !self.covenant_config.party_a.allocation.is_zero(),
                };
                let theirs: u128 = if theirs_left {
                    DECIMAL_FRACTIONAL
                } else {
                    0
                };
                match r {
                    PartyRole::A => self.set_allocations(0, theirs),
                    PartyRole::B => self.set_allocations(theirs, 0),
                }
                if !theirs_left {
                    self.contract_state = ContractState::Complete;
                }
            }
        } else {
            self.set_allocations(0, 0);
            self.contract_state = ContractState::Complete;
        }
        self.withdraw_state = None;
        Ok(HolderResponse { messages, withdraw: None })
    }
}

/// Every holder that `instantiate` creates and the operations keep has
/// allocations that add up to nothing or to exactly one.
pub proof fn lemma_allocations_zero_or_one(h: Holder)
    requires
        h.wf(),
    ensures
        alloc_sum(h.covenant_config) == 0 || alloc_sum(h.covenant_config) == DECIMAL_FRACTIONAL,
{
}

/// Every split a holder keeps has shares that sum to exactly one.
pub proof fn lemma_persisted_splits_sum_to_one(h: Holder)
    requires
        h.wf(),
    ensures
        forall|i: int|
            0 <= i < h.denom_splits.explicit_splits@.len() ==> share_sum(
                (#[trigger] h.denom_splits.explicit_splits@[i]).1.receivers@,
            ) == DECIMAL_FRACTIONAL,
        match h.denom_splits.fallback_split {
            Some(f) => share_sum(f.receivers@) == DECIMAL_FRACTIONAL,
            None => true,
        },
{
    assert forall|i: int| 0 <= i < h.denom_splits.explicit_splits@.len() implies share_sum(
        (#[trigger] h.denom_splits.explicit_splits@[i]).1.receivers@,
    ) == DECIMAL_FRACTIONAL by {
        assert(split_ok(
            h.denom_splits.explicit_splits@[i].1,
            h.covenant_config.party_a.router@,
            h.covenant_config.party_b.router@,
        ));
    }
}

/// Every explicit split pays only the two parties' routers, and none of
/// them more than the whole.
pub proof fn lemma_explicit_splits_pay_routers(h: Holder, i: int, k: int)
    requires
        h.wf(),
        0 <= i < h.denom_splits.explicit_splits@.len(),
        0 <= k < h.denom_splits.explicit_splits@[i].1.receivers@.len(),
    ensures
        ({
            let e = h.denom_splits.explicit_splits@[i].1.receivers@[k];
            &&& e.0@ == h.covenant_config.party_a.router@ || e.0@
                == h.covenant_config.party_b.router@
            &&& e.1.atomics <= DECIMAL_FRACTIONAL
        }),
{
    let sc = h.denom_splits.explicit_splits@[i].1;
    assert(split_ok(sc, h.covenant_config.party_a.router@, h.covenant_config.party_b.router@));
    crate::split::lemma_share_le_sum(sc.receivers@, k);
}

} // verus!
