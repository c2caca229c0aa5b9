use dao_ledger::address::{Address, TxHash};
use dao_ledger::amount::Amount;
use dao_ledger::events::{Api3, OnChainEvent, VotingAgent};
use dao_ledger::ledger::LedgerError;
use dao_ledger::queries::replay;
use dao_ledger::reducer::{failure_policy, FailurePolicy};
use dao_ledger::state::AppState;

fn addr(n: u32) -> Address {
    Address::new(0, n)
}

fn amt(n: u64) -> Amount {
    Amount::from_u64(n)
}

fn ev(entry: Api3, tm: u64) -> OnChainEvent {
    OnChainEvent { entry, tm, block_number: tm, tx: TxHash { hi: 0, lo: tm as u128 }, log_index: 0 }
}

fn staked(user: Address, amount: u64, shares: u64) -> Api3 {
    Api3::StakedV0 { user, amount: amt(amount), minted_shares: amt(shares) }
}

fn wallet<'a>(s: &'a AppState, a: Address) -> &'a dao_ledger::wallet::Wallet {
    let i = s.find_wallet(&a).expect("account has a record");
    &s.wallets[i]
}

fn delegated_to(s: &AppState, target: Address, from: Address) -> Option<Amount> {
    wallet(s, target).delegated.get(&from)
}

#[test]
fn example_scenario() {
    let a = addr(1);
    let b = addr(2);
    let mut s = AppState::new(1);
    assert_eq!(s.update(ev(staked(a, 1000, 1000), 10), Some(5)), Ok(()));
    let w = wallet(&s, a);
    assert_eq!(w.staked, amt(1000));
    assert_eq!(w.shares, amt(1000));
    assert!(w.supporter);
    assert_eq!(w.voting_power, amt(1000));
    assert_eq!(s.last_block, 5);

    let mint = Api3::MintedReward { epoch_index: 1, amount: amt(100), new_apr: amt(0), total_stake: amt(1100) };
    assert_eq!(s.update(ev(mint, 20), None), Ok(()));
    assert_eq!(s.epochs.len(), 1);
    assert_eq!(s.epochs[0].index, 1);
    assert_eq!(s.epochs[0].minted, amt(100));
    assert_eq!(s.epochs[0].total, amt(1000));
    assert_eq!(wallet(&s, a).rewards, amt(100));
    assert_eq!(s.epoch_index, 2);

    let del = Api3::Delegated { from: a, to: b, shares: amt(0), total_delegated_to: amt(0) };
    assert_eq!(s.update(ev(del, 30), None), Ok(()));
    assert_eq!(wallet(&s, a).voting_power, amt(0));
    assert_eq!(delegated_to(&s, b, a), Some(amt(1000)));
    assert_eq!(wallet(&s, b).voting_power, amt(1000));
}

#[test]
fn voting_power_follows_shares_and_delegations() {
    let (a, b, c) = (addr(1), addr(2), addr(3));
    let mut s = AppState::new(1);
    s.update(ev(staked(a, 300, 300), 1), None).unwrap();
    s.update(ev(staked(b, 50, 50), 2), None).unwrap();
    s.update(ev(staked(c, 7, 7), 3), None).unwrap();
    s.update(ev(Api3::DelegatedV0 { from: a, to: b, shares: amt(1) }, 4), None).unwrap();
    s.update(ev(Api3::DelegatedV0 { from: c, to: b, shares: amt(1) }, 5), None).unwrap();
    assert_eq!(wallet(&s, b).voting_power, amt(357));
    assert_eq!(wallet(&s, a).voting_power, amt(0));
    assert_eq!(wallet(&s, c).voting_power, amt(0));
}

#[test]
fn delegating_account_keeps_incoming_power() {
    let (a, b, c) = (addr(1), addr(2), addr(3));
    let mut s = AppState::new(1);
    s.update(ev(staked(a, 10, 10), 1), None).unwrap();
    s.update(ev(staked(c, 4, 4), 2), None).unwrap();
    s.update(ev(Api3::DelegatedV0 { from: c, to: a, shares: amt(4) }, 3), None).unwrap();
    s.update(ev(Api3::DelegatedV0 { from: a, to: b, shares: amt(10) }, 4), None).unwrap();
    assert_eq!(wallet(&s, a).voting_power, amt(4));
    assert_eq!(wallet(&s, b).voting_power, amt(10));
}

#[test]
fn delegation_stays_symmetric_when_shares_change() {
    let (a, b) = (addr(1), addr(2));
    let mut s = AppState::new(1);
    s.update(ev(staked(a, 100, 100), 1), None).unwrap();
    s.update(ev(Api3::DelegatedV0 { from: a, to: b, shares: amt(100) }, 2), None).unwrap();
    s.update(ev(staked(a, 20, 20), 3), None).unwrap();
    let d = wallet(&s, a).delegates.unwrap();
    assert_eq!(d.address, b);
    assert_eq!(d.shares, amt(120));
    assert_eq!(delegated_to(&s, b, a), Some(amt(120)));
    assert_eq!(wallet(&s, b).voting_power, amt(120));

    let unstake = Api3::ScheduledUnstakeV0 { user: a, amount: amt(30), shares: amt(30), scheduled_for: 99 };
    s.update(ev(unstake, 4), None).unwrap();
    assert_eq!(wallet(&s, a).delegates.unwrap().shares, amt(90));
    assert_eq!(delegated_to(&s, b, a), Some(amt(90)));
    assert_eq!(wallet(&s, b).voting_power, amt(90));
}

#[test]
fn redelegation_moves_the_back_reference() {
    let (a, b, c) = (addr(1), addr(2), addr(3));
    let mut s = AppState::new(1);
    s.update(ev(staked(a, 5, 5), 1), None).unwrap();
    s.update(ev(Api3::DelegatedV0 { from: a, to: b, shares: amt(5) }, 2), None).unwrap();
    s.update(ev(Api3::DelegatedV0 { from: a, to: c, shares: amt(5) }, 3), None).unwrap();
    assert_eq!(delegated_to(&s, b, a), None);
    assert_eq!(wallet(&s, b).voting_power, amt(0));
    assert_eq!(delegated_to(&s, c, a), Some(amt(5)));
    assert_eq!(wallet(&s, c).voting_power, amt(5));
}

#[test]
fn rewards_do_not_exceed_minted() {
    let (a, b, c) = (addr(1), addr(2), addr(3));
    let mut s = AppState::new(1);
    s.update(ev(staked(a, 1, 1), 1), None).unwrap();
    s.update(ev(staked(b, 1, 1), 2), None).unwrap();
    s.update(ev(staked(c, 1, 1), 3), None).unwrap();
    let mint = Api3::MintedRewardV0 { epoch_index: 1, amount: amt(100), new_apr: amt(5) };
    s.update(ev(mint, 4), None).unwrap();
    let credited: Vec<Amount> = [a, b, c].iter().map(|x| wallet(&s, *x).rewards).collect();
    assert_eq!(credited, vec![amt(33), amt(33), amt(33)]);
    assert_eq!(s.epochs[0].total, amt(3));
    // one base unit lost to rounding, less than the three accounts
    assert_eq!(s.epochs[0].minted, amt(100));
    assert_eq!(s.apr, amt(5));
    assert_eq!(s.epochs[0].apr, amt(387_500_000_000_000_000));
}

#[test]
fn rewards_compound_into_the_next_epoch() {
    let a = addr(1);
    let mut s = AppState::new(1);
    s.update(ev(staked(a, 1000, 1000), 1), None).unwrap();
    s.update(ev(Api3::MintedRewardV0 { epoch_index: 1, amount: amt(100), new_apr: amt(0) }, 2), None).unwrap();
    s.update(ev(Api3::MintedRewardV0 { epoch_index: 2, amount: amt(110), new_apr: amt(0) }, 3), None).unwrap();
    assert_eq!(wallet(&s, a).rewards, amt(210));
    assert_eq!(s.get_staked_for_epoch(&a, 2), amt(1100));
    assert_eq!(s.get_rewards(&a, 2), Some(amt(210)));
    assert_eq!(s.get_rewards_for_epoch(&a, 2), Some(amt(110)));
    assert_eq!(s.get_rewards_for_epoch(&a, 1), Some(amt(0)));
    assert_eq!(s.get_minted_total(), amt(210));
}

#[test]
fn replay_is_deterministic() {
    let events = || {
        vec![
            (ev(staked(addr(1), 40, 40), 1), Some(1)),
            (ev(Api3::DelegatedV0 { from: addr(1), to: addr(2), shares: amt(40) }, 2), Some(2)),
            (ev(Api3::MintedRewardV0 { epoch_index: 1, amount: amt(9), new_apr: amt(1) }, 3), Some(3)),
            (ev(Api3::CastVote { agent: VotingAgent::Primary, vote_id: 1, voter: addr(2), supports: true, stake: amt(3) }, 4), None),
        ]
    };
    let (s1, f1) = replay(7, events());
    let (s2, f2) = replay(7, events());
    assert_eq!(f1, f2);
    assert_eq!(s1.wallets.len(), s2.wallets.len());
    for (x, y) in s1.wallets.iter().zip(s2.wallets.iter()) {
        assert_eq!(x.address, y.address);
        assert_eq!(x.shares, y.shares);
        assert_eq!(x.rewards, y.rewards);
        assert_eq!(x.voting_power, y.voting_power);
        assert_eq!(x.delegates, y.delegates);
        assert_eq!(x.delegated.entries, y.delegated.entries);
        assert_eq!(x.votes, y.votes);
        assert_eq!(x.updated_at, y.updated_at);
    }
    assert_eq!(s1.epochs[0].stake.entries, s2.epochs[0].stake.entries);
    assert_eq!(s1.wallets_events, s2.wallets_events);
    assert_eq!(s1.events.len(), 4);
    assert_eq!(s1.last_block, s2.last_block);
}

#[test]
fn delegate_then_undelegate_restores_both_accounts() {
    let (a, b) = (addr(1), addr(2));
    let mut s = AppState::new(1);
    s.update(ev(staked(a, 70, 70), 1), None).unwrap();
    s.update(ev(staked(b, 30, 30), 2), None).unwrap();
    let before_a = (wallet(&s, a).voting_power, wallet(&s, a).delegated.entries.clone());
    let before_b = (wallet(&s, b).voting_power, wallet(&s, b).delegated.entries.clone());
    s.update(ev(Api3::Delegated { from: a, to: b, shares: amt(70), total_delegated_to: amt(70) }, 3), None).unwrap();
    assert_eq!(wallet(&s, b).voting_power, amt(100));
    s.update(ev(Api3::Undelegated { from: a, to: b, shares: amt(70), total_delegated_to: amt(0) }, 4), None).unwrap();
    assert_eq!((wallet(&s, a).voting_power, wallet(&s, a).delegated.entries.clone()), before_a);
    assert_eq!((wallet(&s, b).voting_power, wallet(&s, b).delegated.entries.clone()), before_b);
    assert!(wallet(&s, a).delegates.is_none());
}

#[test]
fn later_vote_replaces_earlier_one() {
    let (creator, v) = (addr(1), addr(2));
    let mut s = AppState::new(1);
    let start = Api3::StartVote {
        agent: VotingAgent::Secondary,
        vote_id: 4,
        creator,
        metadata: "x|y|Title|Description".to_string(),
    };
    s.update(ev(start, 1), None).unwrap();
    let yes = Api3::CastVote { agent: VotingAgent::Secondary, vote_id: 4, voter: v, supports: true, stake: amt(100) };
    let no = Api3::CastVote { agent: VotingAgent::Secondary, vote_id: 4, voter: v, supports: false, stake: amt(100) };
    s.update(ev(yes, 2), None).unwrap();
    s.update(ev(no, 3), None).unwrap();
    assert_eq!(s.votings.len(), 1);
    let p = &s.votings[0];
    assert_eq!(p.yes.get(&v), None);
    assert_eq!(p.no.get(&v), Some(amt(100)));
    assert_eq!(p.voted_no, amt(100));
    assert_eq!(p.voted_yes, amt(0));
    assert_eq!(wallet(&s, v).votes, 2);
    assert_eq!(wallet(&s, creator).votes, 1);
    assert_eq!(p.as_u64(), Some(9));
    assert_eq!(p.key(), Some("9".to_string()));
}

#[test]
fn proposal_title_and_description_come_from_metadata() {
    let mut s = AppState::new(1);
    let start = Api3::StartVote { agent: VotingAgent::Primary, vote_id: 2, creator: addr(1), metadata: "a|b|Title|Text".to_string() };
    s.update(ev(start, 1), None).unwrap();
    assert_eq!(s.votings[0].title, "Title");
    assert_eq!(s.votings[0].description, "Text");
    let plain = Api3::StartVote { agent: VotingAgent::Primary, vote_id: 3, creator: addr(1), metadata: "no separators".to_string() };
    s.update(ev(plain, 2), None).unwrap();
    assert_eq!(s.votings[1].title, "no separators");
    assert_eq!(s.votings[1].description, "");
    assert_eq!(s.votings_events.len(), 2);
}

#[test]
fn proposal_records_creator_power_and_total() {
    let (a, b) = (addr(1), addr(2));
    let mut s = AppState::new(1);
    s.update(ev(staked(a, 60, 60), 1), None).unwrap();
    s.update(ev(staked(b, 40, 40), 2), None).unwrap();
    let start = Api3::StartVote { agent: VotingAgent::Primary, vote_id: 1, creator: a, metadata: String::new() };
    s.update(ev(start, 3), None).unwrap();
    let p = &s.votings[0];
    assert_eq!(p.voted_yes, amt(60));
    assert_eq!(p.yes.get(&a), Some(amt(60)));
    assert_eq!(p.votes_total, amt(100));
    s.update(ev(Api3::ExecuteVote { agent: VotingAgent::Primary, vote_id: 1 }, 4), None).unwrap();
    assert!(s.votings[0].executed);
}

#[test]
fn unknown_account_is_refused() {
    let mut s = AppState::new(1);
    assert_eq!(s.delegate(&addr(1), &addr(2), 0), Err(LedgerError::UnknownAccount));
    assert_eq!(s.undelegate(&addr(1), &addr(2), amt(0)), Err(LedgerError::UnknownAccount));
    assert_eq!(s.scheduled_unstake(&addr(1), &amt(1), &amt(1), 0), Err(LedgerError::UnknownAccount));
}

#[test]
fn undelegate_to_another_target_is_a_mismatch() {
    let (a, b, c) = (addr(1), addr(2), addr(3));
    let mut s = AppState::new(1);
    s.update(ev(staked(a, 5, 5), 1), None).unwrap();
    s.update(ev(staked(c, 1, 1), 1), None).unwrap();
    s.update(ev(Api3::DelegatedV0 { from: a, to: b, shares: amt(5) }, 2), None).unwrap();
    let r = s.update(ev(Api3::UndelegatedV0 { from: a, to: c, shares: amt(5) }, 3), None);
    assert_eq!(r, Err(LedgerError::DelegationMismatch));
    assert_eq!(delegated_to(&s, b, a), Some(amt(5)));
}

#[test]
fn undelegating_more_shares_than_held_still_clears() {
    let (a, b) = (addr(1), addr(2));
    let mut s = AppState::new(1);
    s.update(ev(staked(a, 5, 5), 1), None).unwrap();
    s.update(ev(Api3::DelegatedV0 { from: a, to: b, shares: amt(5) }, 2), None).unwrap();
    let r = s.update(ev(Api3::UndelegatedV0 { from: a, to: b, shares: amt(6) }, 3), None);
    assert_eq!(r, Err(LedgerError::InsufficientShares));
    assert!(wallet(&s, a).delegates.is_none());
    assert_eq!(delegated_to(&s, b, a), None);
    assert_eq!(wallet(&s, a).voting_power, amt(5));
}

#[test]
fn scheduling_more_shares_than_held_is_fatal() {
    let a = addr(1);
    let mut s = AppState::new(1);
    s.update(ev(staked(a, 5, 5), 1), None).unwrap();
    let e = Api3::ScheduledUnstake { user: a, amount: amt(6), shares: amt(6), scheduled_for: 9, user_shares: amt(0) };
    assert_eq!(failure_policy(&e), FailurePolicy::Halt);
    assert_eq!(s.update(ev(e, 2), None), Err(LedgerError::InsufficientShares));
    assert_eq!(wallet(&s, a).shares, amt(5));
    assert_eq!(failure_policy(&staked(a, 1, 1)), FailurePolicy::Continue);
}

#[test]
fn fold_stops_at_a_fatal_failure() {
    let a = addr(1);
    let events = vec![
        (ev(Api3::UndelegatedV0 { from: a, to: addr(2), shares: amt(1) }, 1), None),
        (ev(Api3::ScheduledUnstakeV0 { user: a, amount: amt(1), shares: amt(1), scheduled_for: 0 }, 2), None),
        (ev(staked(a, 1, 1), 3), None),
    ];
    let (s, failures) = replay(1, events);
    assert_eq!(failures, vec![(0, LedgerError::InsufficientShares), (1, LedgerError::InsufficientShares)]);
    assert_eq!(s.events.len(), 2);
    assert_eq!(wallet(&s, a).shares, amt(0));
}

#[test]
fn scheduled_unstake_is_clamped_and_cleared_on_confirmation() {
    let a = addr(1);
    let mut s = AppState::new(1);
    s.update(ev(staked(a, 50, 80), 1), None).unwrap();
    let e = Api3::ScheduledUnstakeV0 { user: a, amount: amt(70), shares: amt(40), scheduled_for: 9 };
    s.update(ev(e, 2), None).unwrap();
    let w = wallet(&s, a);
    assert_eq!(w.staked, amt(0));
    assert_eq!(w.shares, amt(40));
    assert!(!w.supporter);
    let su = w.scheduled_unstake.unwrap();
    assert_eq!(su.amount, amt(50));
    assert_eq!(su.shares, amt(40));
    assert_eq!(su.tm, 9);
    s.update(ev(Api3::UnstakedV0 { user: a, amount: amt(50) }, 3), None).unwrap();
    let w = wallet(&s, a);
    assert!(w.scheduled_unstake.is_none());
    assert_eq!(w.shares, amt(40));
    assert_eq!(w.staked, amt(0));
}

#[test]
fn stake_overflow_is_refused() {
    let a = addr(1);
    let mut s = AppState::new(1);
    let max = Amount { w0: u64::MAX, w1: u64::MAX, w2: u64::MAX, w3: u64::MAX };
    s.update(ev(Api3::StakedV0 { user: a, amount: max, minted_shares: amt(1) }, 1), None).unwrap();
    let r = s.update(ev(staked(a, 1, 1), 2), None);
    assert_eq!(r, Err(LedgerError::Arithmetic));
    assert_eq!(wallet(&s, a).shares, amt(1));
}

#[test]
fn staking_unknown_account_directly_is_ignored() {
    let mut s = AppState::new(1);
    assert_eq!(s.staked(&addr(1), &amt(5), &amt(5)), Ok(()));
    assert_eq!(s.wallets.len(), 0);
}

#[test]
fn deposits_and_withdrawals_set_flags() {
    let (a, b) = (addr(1), addr(2));
    let mut s = AppState::new(1);
    s.update(ev(Api3::DepositedV0 { user: a, amount: amt(10) }, 1), None).unwrap();
    s.update(ev(Api3::DepositedVesting { user: b, amount: amt(7), start: 0, end: 1, user_unstaked: amt(0), user_vesting: amt(7) }, 2), None).unwrap();
    s.update(ev(Api3::DepositedVesting { user: b, amount: amt(3), start: 0, end: 1, user_unstaked: amt(0), user_vesting: amt(10) }, 3), None).unwrap();
    assert_eq!(wallet(&s, a).deposited, amt(10));
    assert_eq!(wallet(&s, b).vested_amount, Some(amt(10)));
    assert!(s.is_vested_deposit(&b));
    assert!(!s.is_vested_deposit(&a));
    s.update(ev(staked(a, 10, 10), 4), None).unwrap();
    assert!(wallet(&s, a).supporter);
    s.update(ev(Api3::WithdrawnV0 { user: a, amount: amt(10) }, 5), None).unwrap();
    assert!(!wallet(&s, a).supporter);
    assert_eq!(wallet(&s, a).withdrawn, amt(10));
    assert_eq!(s.get_withdrawn_num(), 1);
    assert_eq!(s.get_vested_num(), 1);
    assert_eq!(s.get_vested_shares(), amt(10));
    assert_eq!(wallet(&s, a).created_at, 1);
    assert_eq!(wallet(&s, a).updated_at, 5);
    assert_eq!(s.wallets_events[s.find_wallet(&a).unwrap()], vec![0, 3, 4]);
}

#[test]
fn vesting_addresses_mark_accounts() {
    let (a, b) = (addr(1), addr(2));
    let mut s = AppState::new(1);
    s.update(ev(staked(a, 1, 1), 1), None).unwrap();
    s.update(ev(staked(b, 1, 1), 2), None).unwrap();
    s.update(ev(Api3::SetVestingAddresses { addresses: vec![b] }, 3), None).unwrap();
    assert!(!wallet(&s, a).vested);
    assert!(wallet(&s, b).vested);
    assert_eq!(s.vested, vec![b]);
}

#[test]
fn totals_and_counts() {
    let (a, b) = (addr(1), addr(2));
    let mut s = AppState::new(1);
    s.update(ev(staked(a, 10, 20), 1), None).unwrap();
    s.update(ev(staked(b, 5, 6), 2), None).unwrap();
    s.update(ev(Api3::DelegatedV0 { from: a, to: b, shares: amt(0) }, 3), None).unwrap();
    assert_eq!(s.get_staked_total(), amt(15));
    assert_eq!(s.get_shares_total(), amt(26));
    assert_eq!(s.get_votes_total(), amt(26));
    assert_eq!(s.get_delegating_num(), 1);
    assert_eq!(s.get_delegating_shares(), amt(20));
    assert_eq!(s.get_voting_power_of(&b), amt(26));
    assert_eq!(s.get_voting_power_of(&addr(9)), amt(0));
}

#[test]
fn other_events_change_nothing_but_the_log() {
    let mut s = AppState::new(3);
    assert_eq!(s.update(ev(Api3::Other, 1), Some(44)), Ok(()));
    assert_eq!(s.wallets.len(), 0);
    assert_eq!(s.events.len(), 1);
    assert_eq!(s.last_block, 44);
    assert_eq!(s.chain_id, 3);
    assert_eq!(s.version, "20210820");
    assert_eq!(s.epoch_index, 1);
}

#[test]
fn folding_then_updating_equals_folding_the_longer_log() {
    let events = || {
        vec![
            (ev(staked(addr(1), 40, 40), 1), Some(1)),
            (ev(Api3::DelegatedV0 { from: addr(1), to: addr(2), shares: amt(40) }, 2), Some(2)),
        ]
    };
    let extra = || ev(staked(addr(1), 2, 2), 3);
    let (mut s1, _) = replay(5, events());
    s1.update(extra(), Some(3)).unwrap();
    let mut all = events();
    all.push((extra(), Some(3)));
    let (s2, _) = replay(5, all);
    assert_eq!(wallet(&s1, addr(2)).voting_power, amt(42));
    assert_eq!(wallet(&s1, addr(2)).voting_power, wallet(&s2, addr(2)).voting_power);
    assert_eq!(wallet(&s1, addr(1)).delegates, wallet(&s2, addr(1)).delegates);
    assert_eq!(s1.wallets_events, s2.wallets_events);
    assert_eq!(s1.last_block, s2.last_block);
}
