use covenant::bank::{BankSend, Coin};
use covenant::decimal::Decimal;
use covenant::expiry::{BlockInfo, Expiration};
use covenant::holder::{
    ContractState, CovenantType, Holder, HolderError, InstantiateMsg, RagequitConfig,
    RagequitTerms, TwoPartyPolCovenantConfig, TwoPartyPolCovenantParty, WithdrawRequest,
    WithdrawState,
};
use covenant::split::{SplitConfig, SplitError};

const CLOCK_ADDR: &str = "clock_address";
const POOLER: &str = "liquid_pooler";
const PARTY_A_ADDR: &str = "party_a";
const PARTY_B_ADDR: &str = "party_b";
const PARTY_A_ROUTER: &str = "party_a_router";
const PARTY_B_ROUTER: &str = "party_b_router";
const DENOM_A: &str = "denom_a";
const DENOM_B: &str = "denom_b";
const COMMITTEE: &str = "emergency_committee";
const INITIAL_BLOCK_HEIGHT: u64 = 12345;
const INITIAL_BLOCK_NANOS: u64 = 1_571_797_419_879_305_533;
const MINUTE_NANOS: u64 = 60_000_000_000;

fn s(x: &str) -> String {
    x.to_string()
}

fn start_block() -> BlockInfo {
    BlockInfo { height: INITIAL_BLOCK_HEIGHT, time: INITIAL_BLOCK_NANOS }
}

fn pass_minutes(b: BlockInfo, minutes: u64) -> BlockInfo {
    BlockInfo { height: b.height + minutes / 5, time: b.time + minutes * MINUTE_NANOS }
}

fn pass_blocks(b: BlockInfo, blocks: u64) -> BlockInfo {
    BlockInfo { height: b.height + blocks, time: b.time + blocks * 5_000_000_000 }
}

fn half_split() -> SplitConfig {
    SplitConfig {
        receivers: vec![
            (s(PARTY_A_ROUTER), Decimal::percent(50)),
            (s(PARTY_B_ROUTER), Decimal::percent(50)),
        ],
    }
}

fn party(addr: &str, router: &str, denom: &str, allocation: Decimal) -> TwoPartyPolCovenantParty {
    TwoPartyPolCovenantParty {
        contribution: Coin { denom: s(denom), amount: 500 },
        addr: s(addr),
        allocation,
        router: s(router),
    }
}

fn msg() -> InstantiateMsg {
    InstantiateMsg {
        clock_address: s(CLOCK_ADDR),
        liquid_pooler_address: s(POOLER),
        emergency_committee: Some(s(COMMITTEE)),
        lockup_config: Expiration::Never,
        deposit_deadline: Expiration::Never,
        ragequit_config: RagequitConfig::Disabled,
        covenant_config: TwoPartyPolCovenantConfig {
            party_a: party(PARTY_A_ADDR, PARTY_A_ROUTER, DENOM_A, Decimal::percent(50)),
            party_b: party(PARTY_B_ADDR, PARTY_B_ROUTER, DENOM_B, Decimal::percent(50)),
            covenant_type: CovenantType::Share,
        },
        splits: vec![(s(DENOM_A), half_split()), (s(DENOM_B), half_split())],
        fallback_split: None,
    }
}

fn build(m: InstantiateMsg) -> Holder {
    Holder::instantiate(m, &start_block()).unwrap()
}

fn with_ragequit(penalty: Decimal) -> InstantiateMsg {
    let mut m = msg();
    m.ragequit_config = RagequitConfig::Enabled(RagequitTerms { penalty });
    m
}

fn coins(a: u128, b: u128) -> Vec<Coin> {
    vec![Coin { denom: s(DENOM_A), amount: a }, Coin { denom: s(DENOM_B), amount: b }]
}

fn paid(msgs: &[BankSend], to: &str, denom: &str) -> u128 {
    msgs.iter().filter(|m| m.to_address == to && m.denom == denom).map(|m| m.amount).sum()
}

fn activate(h: &mut Holder, block: &BlockInfo) {
    let resp = h.tick(&s(CLOCK_ADDR), block, 500, 500).unwrap();
    assert_eq!(ContractState::Active, h.contract_state);
    assert_eq!(500, paid(&resp.messages, POOLER, DENOM_A));
    assert_eq!(500, paid(&resp.messages, POOLER, DENOM_B));
}

#[test]
fn tests_test_instantiate_happy_and_query_all() {
    let h = build(msg());
    assert_eq!(ContractState::Instantiated, h.contract_state);
    assert_eq!(CLOCK_ADDR, h.clock_address);
    assert_eq!(POOLER, h.liquid_pooler_address);
    assert_eq!(PARTY_A_ROUTER, h.covenant_config.party_a.router);
    assert_eq!(PARTY_B_ROUTER, h.covenant_config.party_b.router);
    assert_eq!(Expiration::Never, h.deposit_deadline);
    assert_eq!(Expiration::Never, h.lockup_config);
    assert!(h.withdraw_state.is_none());
}

#[test]
fn test_invalid_ragequit_penalty() {
    let r = Holder::instantiate(with_ragequit(Decimal::one()), &start_block());
    assert_eq!(Some(HolderError::RagequitPenaltyOutOfRange), r.err());
}

#[test]
fn test_ragequit_penalty_exceeds_either_party_allocation() {
    let r = Holder::instantiate(with_ragequit(Decimal::percent(51)), &start_block());
    assert_eq!(Some(HolderError::RagequitPenaltyExceedsPartyAllocation), r.err());
}

#[test]
fn test_instantiate_invalid_allocations() {
    let mut m = msg();
    m.covenant_config.party_a.allocation = Decimal::percent(4);
    m.covenant_config.party_b.allocation = Decimal::percent(20);
    let r = Holder::instantiate(m, &start_block());
    assert_eq!(Some(HolderError::AllocationsDoNotSumToOne), r.err());
}

#[test]
fn test_instantiate_invalid_deposit_deadline_block_based() {
    let mut m = msg();
    m.deposit_deadline = Expiration::AtHeight(1);
    let r = Holder::instantiate(m, &start_block());
    assert_eq!(Some(HolderError::DepositDeadlineValidationError), r.err());
}

#[test]
fn test_instantiate_invalid_deposit_deadline_time_based() {
    let mut m = msg();
    m.deposit_deadline = Expiration::AtTime(1);
    let r = Holder::instantiate(m, &start_block());
    assert_eq!(Some(HolderError::DepositDeadlineValidationError), r.err());
}

#[test]
fn test_instantiate_invalid_lockup_config_time_based() {
    let mut m = msg();
    m.lockup_config = Expiration::AtTime(INITIAL_BLOCK_NANOS - 1);
    let r = Holder::instantiate(m, &start_block());
    assert_eq!(Some(HolderError::LockupValidationError), r.err());
}

#[test]
fn test_instantiate_invalid_lockup_config_height_based() {
    let mut m = msg();
    m.lockup_config = Expiration::AtHeight(INITIAL_BLOCK_HEIGHT - 1);
    let r = Holder::instantiate(m, &start_block());
    assert_eq!(Some(HolderError::LockupValidationError), r.err());
}

#[test]
fn instantiate_rejects_deadline_after_lockup() {
    let mut m = msg();
    m.deposit_deadline = Expiration::AtHeight(20_000);
    m.lockup_config = Expiration::AtHeight(20_000);
    let r = Holder::instantiate(m, &start_block());
    assert_eq!(Some(HolderError::DepositDeadlineValidationError), r.err());
}

#[test]
fn instantiate_rejects_coincident_parties() {
    let mut m = msg();
    m.covenant_config.party_b.router = s(PARTY_A_ROUTER);
    let r = Holder::instantiate(m, &start_block());
    assert_eq!(Some(HolderError::PartiesNotDistinct), r.err());
}

#[test]
fn instantiate_rejects_split_not_summing_to_one() {
    let mut m = msg();
    m.splits[0].1.receivers[0].1 = Decimal::percent(40);
    let r = Holder::instantiate(m, &start_block());
    assert_eq!(Some(HolderError::SplitMisconfig), r.err());
}

#[test]
fn instantiate_rejects_split_to_stranger() {
    let mut m = msg();
    m.splits[1].1.receivers[1].0 = s("stranger");
    let r = Holder::instantiate(m, &start_block());
    assert_eq!(Some(HolderError::SplitMisconfig), r.err());
}

#[test]
fn test_single_party_deposit_refund_block_based() {
    let mut m = msg();
    m.deposit_deadline = Expiration::AtHeight(12545);
    let mut h = build(m);
    // party A funds 500, party B nothing; 250 blocks pass
    let block = pass_blocks(start_block(), 250);
    let first = h.tick(&s(CLOCK_ADDR), &block, 500, 0).unwrap();
    assert_eq!(ContractState::Complete, h.contract_state);
    assert_eq!(500, paid(&first.messages, PARTY_A_ROUTER, DENOM_A));
    assert_eq!(1, first.messages.len());
    // the refund has left the holder
    let second = h.tick(&s(CLOCK_ADDR), &block, 0, 0).unwrap();
    assert_eq!(ContractState::Complete, h.contract_state);
    assert!(second.messages.is_empty());
}

#[test]
fn test_single_party_deposit_refund_time_based() {
    let mut m = msg();
    m.deposit_deadline = Expiration::AtTime(INITIAL_BLOCK_NANOS + 200 * MINUTE_NANOS);
    let mut h = build(m);
    let block = pass_minutes(start_block(), 250);
    let first = h.tick(&s(CLOCK_ADDR), &block, 500, 0).unwrap();
    let second = h.tick(&s(CLOCK_ADDR), &block, 0, 0).unwrap();
    assert_eq!(ContractState::Complete, h.contract_state);
    assert_eq!(500, paid(&first.messages, PARTY_A_ROUTER, DENOM_A));
    assert!(second.messages.is_empty());
}

#[test]
fn test_single_party_deposit_refund_no_deposit_deadline() {
    let mut h = build(msg());
    let block = pass_minutes(start_block(), 25000000);
    let _ = h.tick(&s(CLOCK_ADDR), &block, 500, 0);
    let _ = h.tick(&s(CLOCK_ADDR), &block, 500, 0);
    let resp = h.tick(&s(CLOCK_ADDR), &block, 500, 0).unwrap_err();
    assert_eq!(ContractState::Instantiated, h.contract_state);
    assert_eq!(HolderError::InsufficientDeposits, resp);
}

#[test]
fn test_holder_active_does_not_allow_claims() {
    let mut h = build(msg());
    activate(&mut h, &start_block());
    assert_eq!(Err(HolderError::ClaimError), h.claim(&s(PARTY_A_ADDR)).map(|_| ()));
    assert_eq!(ContractState::Active, h.contract_state);
    assert!(h.withdraw_state.is_none());
}

#[test]
fn test_holder_active_not_expired_ticks() {
    let mut m = msg();
    m.deposit_deadline = Expiration::AtTime(INITIAL_BLOCK_NANOS + 200 * MINUTE_NANOS);
    let mut h = build(m);
    activate(&mut h, &start_block());
    let resp = h.tick(&s(CLOCK_ADDR), &pass_minutes(start_block(), 50), 0, 0).unwrap();
    assert_eq!(ContractState::Active, h.contract_state);
    assert!(resp.messages.is_empty());
    assert!(resp.withdraw.is_none());
}

#[test]
fn test_holder_active_expired_tick_advances_state() {
    let mut m = msg();
    m.lockup_config = Expiration::AtTime(INITIAL_BLOCK_NANOS + 200 * MINUTE_NANOS);
    let mut h = build(m);
    activate(&mut h, &start_block());
    h.tick(&s(CLOCK_ADDR), &pass_minutes(start_block(), 250), 0, 0).unwrap();
    assert_eq!(ContractState::Expired, h.contract_state);
}

#[test]
fn test_holder_ragequit_disabled() {
    let mut h = build(msg());
    activate(&mut h, &start_block());
    let block = pass_minutes(start_block(), 300);
    h.tick(&s(CLOCK_ADDR), &block, 0, 0).unwrap();
    let err = h.ragequit(&s(PARTY_A_ADDR), &block).unwrap_err();
    assert_eq!(ContractState::Active, h.contract_state);
    assert_eq!(HolderError::RagequitDisabled, err);
}

#[test]
fn test_holder_ragequit_unauthorized() {
    let mut h = build(with_ragequit(Decimal::permille(100)));
    activate(&mut h, &start_block());
    let block = pass_minutes(start_block(), 50);
    h.tick(&s(CLOCK_ADDR), &block, 0, 0).unwrap();
    let err = h.ragequit(&s("random_user"), &block).unwrap_err();
    assert_eq!(ContractState::Active, h.contract_state);
    assert_eq!(HolderError::Unauthorized, err);
}

#[test]
fn test_holder_ragequit_not_in_active_state() {
    let mut m = msg();
    m.lockup_config = Expiration::AtTime(INITIAL_BLOCK_NANOS + 200 * MINUTE_NANOS);
    let mut h = build(m);
    activate(&mut h, &start_block());
    let block = pass_minutes(start_block(), 300);
    h.tick(&s(CLOCK_ADDR), &block, 0, 0).unwrap();
    let err = h.ragequit(&s(PARTY_A_ADDR), &block).unwrap_err();
    assert_eq!(ContractState::Expired, h.contract_state);
    assert_eq!(HolderError::RagequitDisabled, err);
}

#[test]
fn test_holder_ragequit_active_but_expired() {
    let mut m = with_ragequit(Decimal::permille(1));
    m.lockup_config = Expiration::AtTime(INITIAL_BLOCK_NANOS + 200 * MINUTE_NANOS);
    let mut h = build(m);
    activate(&mut h, &start_block());
    let err = h.ragequit(&s(PARTY_A_ADDR), &pass_minutes(start_block(), 300)).unwrap_err();
    assert_eq!(HolderError::Expired, err);
}

#[test]
fn test_ragequit_happy_flow_to_completion() {
    let mut m = with_ragequit(Decimal::permille(100));
    m.lockup_config = Expiration::AtTime(INITIAL_BLOCK_NANOS + 200 * MINUTE_NANOS);
    let mut h = build(m);
    activate(&mut h, &start_block());

    // party A ragequits: 0.5 - 0.1 of the position is withdrawn for it
    let rq = h.ragequit(&s(PARTY_A_ADDR), &start_block()).unwrap();
    assert_eq!(Some(WithdrawRequest { percentage: Some(Decimal::permille(400)) }), rq.withdraw);
    let out = h.distribute(&s(POOLER), &coins(200, 200)).unwrap();
    assert_eq!(200, paid(&out.messages, PARTY_A_ROUTER, DENOM_A));
    assert_eq!(200, paid(&out.messages, PARTY_A_ROUTER, DENOM_B));
    assert_eq!(Decimal::one(), h.covenant_config.party_b.allocation);
    assert_eq!(Decimal::zero(), h.covenant_config.party_a.allocation);
    assert_eq!(ContractState::Ragequit, h.contract_state);

    // party B claims the rest
    let claim = h.claim(&s(PARTY_B_ADDR)).unwrap();
    assert_eq!(Some(WithdrawRequest { percentage: Some(Decimal::one()) }), claim.withdraw);
    let out = h.distribute(&s(POOLER), &coins(200, 200)).unwrap();
    assert_eq!(200, paid(&out.messages, PARTY_B_ROUTER, DENOM_A));
    assert_eq!(200, paid(&out.messages, PARTY_B_ROUTER, DENOM_B));
    assert_eq!(Decimal::zero(), h.covenant_config.party_b.allocation);
    assert_eq!(Decimal::zero(), h.covenant_config.party_a.allocation);
    assert_eq!(ContractState::Complete, h.contract_state);
}

#[test]
fn test_expiry_happy_flow_to_completion() {
    let mut m = msg();
    m.lockup_config = Expiration::AtTime(INITIAL_BLOCK_NANOS + 200 * MINUTE_NANOS);
    let mut h = build(m);
    activate(&mut h, &start_block());
    h.tick(&s(CLOCK_ADDR), &pass_minutes(start_block(), 250), 0, 0).unwrap();
    assert_eq!(ContractState::Expired, h.contract_state);

    // party B claims half of the position
    let claim = h.claim(&s(PARTY_B_ADDR)).unwrap();
    assert_eq!(Some(WithdrawRequest { percentage: Some(Decimal::percent(50)) }), claim.withdraw);
    let out = h.distribute(&s(POOLER), &coins(200, 200)).unwrap();
    assert_eq!(0, paid(&out.messages, PARTY_A_ROUTER, DENOM_A));
    assert_eq!(0, paid(&out.messages, PARTY_A_ROUTER, DENOM_B));
    assert_eq!(200, paid(&out.messages, PARTY_B_ROUTER, DENOM_A));
    assert_eq!(200, paid(&out.messages, PARTY_B_ROUTER, DENOM_B));
    assert_eq!(Decimal::one(), h.covenant_config.party_a.allocation);
    assert_eq!(Decimal::zero(), h.covenant_config.party_b.allocation);

    // party A claims the rest
    let claim = h.claim(&s(PARTY_A_ADDR)).unwrap();
    assert_eq!(Some(WithdrawRequest { percentage: Some(Decimal::one()) }), claim.withdraw);
    let out = h.distribute(&s(POOLER), &coins(200, 200)).unwrap();
    assert_eq!(200, paid(&out.messages, PARTY_A_ROUTER, DENOM_A));
    assert_eq!(200, paid(&out.messages, PARTY_A_ROUTER, DENOM_B));
    h.tick(&s(CLOCK_ADDR), &pass_minutes(start_block(), 255), 0, 0).unwrap();
    assert_eq!(Decimal::zero(), h.covenant_config.party_b.allocation);
    assert_eq!(Decimal::zero(), h.covenant_config.party_a.allocation);
    assert_eq!(ContractState::Complete, h.contract_state);
}

#[test]
fn deposit_deadline_fires_at_exact_height() {
    let mut m = msg();
    m.deposit_deadline = Expiration::AtHeight(12545);
    let mut h = build(m);
    let before = BlockInfo { height: 12544, time: INITIAL_BLOCK_NANOS };
    assert_eq!(Err(HolderError::InsufficientDeposits), h.tick(&s(CLOCK_ADDR), &before, 500, 0).map(|_| ()));
    assert_eq!(ContractState::Instantiated, h.contract_state);
    let at = BlockInfo { height: 12545, time: INITIAL_BLOCK_NANOS };
    let resp = h.tick(&s(CLOCK_ADDR), &at, 500, 0).unwrap();
    assert_eq!(ContractState::Complete, h.contract_state);
    assert_eq!(500, paid(&resp.messages, PARTY_A_ROUTER, DENOM_A));
}

#[test]
fn lockup_fires_at_exact_time() {
    let lockup = INITIAL_BLOCK_NANOS + 200 * MINUTE_NANOS;
    let mut m = msg();
    m.lockup_config = Expiration::AtTime(lockup);
    let mut h = build(m);
    activate(&mut h, &start_block());
    let before = BlockInfo { height: INITIAL_BLOCK_HEIGHT, time: lockup - 1 };
    h.tick(&s(CLOCK_ADDR), &before, 0, 0).unwrap();
    assert_eq!(ContractState::Active, h.contract_state);
    let at = BlockInfo { height: INITIAL_BLOCK_HEIGHT, time: lockup };
    h.tick(&s(CLOCK_ADDR), &at, 0, 0).unwrap();
    assert_eq!(ContractState::Expired, h.contract_state);
}

#[test]
fn ragequit_at_lockup_height_is_expired() {
    let mut m = with_ragequit(Decimal::percent(10));
    m.lockup_config = Expiration::AtHeight(20_000);
    let mut h = build(m);
    activate(&mut h, &start_block());
    let at = BlockInfo { height: 20_000, time: INITIAL_BLOCK_NANOS };
    assert_eq!(Err(HolderError::Expired), h.ragequit(&s(PARTY_A_ADDR), &at).map(|_| ()));
    let before = BlockInfo { height: 19_999, time: INITIAL_BLOCK_NANOS };
    assert!(h.ragequit(&s(PARTY_A_ADDR), &before).is_ok());
}

#[test]
fn tick_after_complete_is_a_no_op() {
    let mut m = msg();
    m.deposit_deadline = Expiration::AtHeight(12545);
    let mut h = build(m);
    let block = BlockInfo { height: 12600, time: INITIAL_BLOCK_NANOS };
    h.tick(&s(CLOCK_ADDR), &block, 0, 0).unwrap();
    assert_eq!(ContractState::Complete, h.contract_state);
    let first = h.tick(&s(CLOCK_ADDR), &block, 0, 0).unwrap();
    let second = h.tick(&s(CLOCK_ADDR), &block, 0, 0).unwrap();
    assert!(first.messages.is_empty() && second.messages.is_empty());
    assert_eq!(ContractState::Complete, h.contract_state);
}

#[test]
fn tick_requires_the_clock() {
    let mut h = build(msg());
    assert_eq!(Err(HolderError::NotClock), h.tick(&s("not_the_clock"), &start_block(), 500, 500).map(|_| ()));
    assert_eq!(ContractState::Instantiated, h.contract_state);
}

#[test]
fn ragequit_share_with_penalty_moves_split() {
    let mut h = build(with_ragequit(Decimal::percent(10)));
    activate(&mut h, &start_block());
    h.ragequit(&s(PARTY_A_ADDR), &start_block()).unwrap();
    assert!(matches!(h.withdraw_state, Some(WithdrawState::ProcessingRagequit { .. })));
    // a second withdrawal cannot start while one is in flight
    assert_eq!(Err(HolderError::WithdrawAlreadyStarted), h.ragequit(&s(PARTY_B_ADDR), &start_block()).map(|_| ()));
    let out = h.distribute(&s(POOLER), &coins(400, 400)).unwrap();
    assert_eq!(400, paid(&out.messages, PARTY_A_ROUTER, DENOM_A));
    assert_eq!(400, paid(&out.messages, PARTY_A_ROUTER, DENOM_B));
    assert!(h.withdraw_state.is_none());
    assert_eq!(ContractState::Ragequit, h.contract_state);
    // the explicit splits now favour party B by the penalty
    let split_a = &h.denom_splits.explicit_splits[0].1;
    assert_eq!(Decimal::percent(40), split_a.receivers[0].1);
    assert_eq!(Decimal::percent(60), split_a.receivers[1].1);
}

#[test]
fn side_mode_emergency_withdraw_goes_through_splits() {
    let mut m = msg();
    m.covenant_config.covenant_type = CovenantType::Side;
    let mut h = build(m);
    activate(&mut h, &start_block());
    assert_eq!(Err(HolderError::Unauthorized), h.emergency_withdraw(&s(PARTY_A_ADDR)).map(|_| ()));
    let resp = h.emergency_withdraw(&s(COMMITTEE)).unwrap();
    assert_eq!(Some(WithdrawRequest { percentage: None }), resp.withdraw);
    assert!(matches!(h.withdraw_state, Some(WithdrawState::Emergency)));
    assert_eq!(Err(HolderError::Unauthorized), h.distribute(&s("not_pooler"), &coins(1000, 1000)).map(|_| ()));
    let out = h.distribute(&s(POOLER), &coins(1000, 1001)).unwrap();
    assert_eq!(500, paid(&out.messages, PARTY_A_ROUTER, DENOM_A));
    assert_eq!(500, paid(&out.messages, PARTY_B_ROUTER, DENOM_A));
    assert_eq!(500, paid(&out.messages, PARTY_A_ROUTER, DENOM_B));
    assert_eq!(500, paid(&out.messages, PARTY_B_ROUTER, DENOM_B));
    assert_eq!(ContractState::Complete, h.contract_state);
    assert_eq!(Decimal::zero(), h.covenant_config.party_a.allocation);
    assert_eq!(Decimal::zero(), h.covenant_config.party_b.allocation);
}

#[test]
fn side_mode_claim_withdraws_everything() {
    let mut m = msg();
    m.covenant_config.covenant_type = CovenantType::Side;
    m.lockup_config = Expiration::AtHeight(20_000);
    let mut h = build(m);
    activate(&mut h, &start_block());
    h.tick(&s(CLOCK_ADDR), &BlockInfo { height: 20_000, time: 0 }, 0, 0).unwrap();
    let claim = h.claim(&s(PARTY_B_ADDR)).unwrap();
    assert_eq!(Some(WithdrawRequest { percentage: None }), claim.withdraw);
    let out = h.distribute(&s(POOLER), &coins(10, 20)).unwrap();
    assert_eq!(5, paid(&out.messages, PARTY_A_ROUTER, DENOM_A));
    assert_eq!(10, paid(&out.messages, PARTY_B_ROUTER, DENOM_B));
    assert_eq!(ContractState::Complete, h.contract_state);
}

#[test]
fn withdraw_failed_clears_the_withdrawal() {
    let mut h = build(with_ragequit(Decimal::percent(10)));
    activate(&mut h, &start_block());
    assert_eq!(Err(HolderError::WithdrawStateNotStarted), h.withdraw_failed(&s(POOLER)));
    assert_eq!(Err(HolderError::WithdrawStateNotStarted), h.distribute(&s(POOLER), &coins(1, 1)).map(|_| ()));
    h.ragequit(&s(PARTY_B_ADDR), &start_block()).unwrap();
    assert_eq!(Err(HolderError::Unauthorized), h.withdraw_failed(&s(PARTY_B_ADDR)));
    assert_eq!(Ok(()), h.withdraw_failed(&s(POOLER)));
    assert!(h.withdraw_state.is_none());
    assert_eq!(ContractState::Active, h.contract_state);
    assert_eq!(Decimal::percent(50), h.covenant_config.party_b.allocation);
}

#[test]
fn claim_with_both_allocations_zero_completes() {
    let mut m = msg();
    m.lockup_config = Expiration::AtHeight(20_000);
    let mut h = build(m);
    activate(&mut h, &start_block());
    h.tick(&s(CLOCK_ADDR), &BlockInfo { height: 20_000, time: 0 }, 0, 0).unwrap();
    h.claim(&s(PARTY_A_ADDR)).unwrap();
    assert_eq!(Err(HolderError::WithdrawAlreadyStarted), h.claim(&s(PARTY_B_ADDR)).map(|_| ()));
    h.distribute(&s(POOLER), &coins(1, 1)).unwrap();
    h.claim(&s(PARTY_B_ADDR)).unwrap();
    h.distribute(&s(POOLER), &coins(1, 1)).unwrap();
    assert_eq!(ContractState::Complete, h.contract_state);
    let again = h.claim(&s(PARTY_A_ADDR));
    assert_eq!(Err(HolderError::ClaimError), again.map(|_| ()));
    assert_eq!(Err(HolderError::Unauthorized), h.claim(&s("random_user")).map(|_| ()));
}

#[test]
fn fallback_distribution_rejects_explicit_denoms() {
    let mut m = msg();
    m.fallback_split = Some(SplitConfig { receivers: vec![(s("treasury"), Decimal::one())] });
    let h = build(m);
    let bad = vec![Coin { denom: s(DENOM_A), amount: 10 }];
    assert_eq!(
        Err(HolderError::Split(SplitError::UnauthorizedDenomDistribution)),
        h.distribute_fallback(&bad)
    );
    let good = vec![Coin { denom: s("other"), amount: 10 }];
    let out = h.distribute_fallback(&good).unwrap();
    assert_eq!(10, paid(&out, "treasury", "other"));
}

#[test]
fn fallback_distribution_needs_a_fallback() {
    let h = build(msg());
    let c = vec![Coin { denom: s("other"), amount: 10 }];
    assert_eq!(Err(HolderError::Split(SplitError::NoFallbackSplit)), h.distribute_fallback(&c));
}

#[test]
fn ragequit_before_activation_is_not_active() {
    let mut h = build(with_ragequit(Decimal::percent(10)));
    assert_eq!(Err(HolderError::NotActive), h.ragequit(&s(PARTY_A_ADDR), &start_block()).map(|_| ()));
}

#[test]
fn ragequit_penalty_larger_than_a_split_share_fails_distribution() {
    let mut m = with_ragequit(Decimal::percent(10));
    m.splits[0].1 = SplitConfig {
        receivers: vec![
            (s(PARTY_A_ROUTER), Decimal::percent(5)),
            (s(PARTY_B_ROUTER), Decimal::percent(95)),
        ],
    };
    let mut h = build(m);
    activate(&mut h, &start_block());
    h.ragequit(&s(PARTY_A_ADDR), &start_block()).unwrap();
    let r = h.distribute(&s(POOLER), &coins(10, 10)).map(|_| ());
    assert_eq!(Err(HolderError::Split(SplitError::PenaltyOutOfRange)), r);
    // nothing changed: the withdrawal is still awaited
    assert!(matches!(h.withdraw_state, Some(WithdrawState::ProcessingRagequit { .. })));
    assert_eq!(Decimal::percent(5), h.denom_splits.explicit_splits[0].1.receivers[0].1);
}
