use dao_ledger::address::Address;
use dao_ledger::amount::Amount;
use dao_ledger::amount_map::AmountMap;
use dao_ledger::events::{voting_to_string, voting_to_u64, Api3, VotingAgent};
use dao_ledger::labels::LabelBadge;
use dao_ledger::queries::withdrew_most;
use dao_ledger::state::{get_known_decimals, AppState};
use dao_ledger::treasury::Treasury;
use dao_ledger::wallet::{Delegation, Wallet};

fn amt(n: u64) -> Amount {
    Amount::from_u64(n)
}

#[test]
fn amount_arithmetic_carries_across_words() {
    let low_max = Amount { w0: u64::MAX, w1: 0, w2: 0, w3: 0 };
    assert_eq!(low_max.checked_add(amt(1)), Some(Amount { w0: 0, w1: 1, w2: 0, w3: 0 }));
    let max = Amount { w0: u64::MAX, w1: u64::MAX, w2: u64::MAX, w3: u64::MAX };
    assert_eq!(max.checked_add(amt(1)), None);
    assert_eq!(max.saturating_add(amt(5)), max);
    assert_eq!(amt(7).checked_sub(amt(9)), None);
    assert_eq!(amt(9).checked_sub(amt(7)), Some(amt(2)));
    assert_eq!(low_max.checked_mul(amt(2)), Some(Amount { w0: u64::MAX - 1, w1: 1, w2: 0, w3: 0 }));
    assert_eq!(max.checked_mul(amt(2)), None);
    assert_eq!(amt(100).checked_div(amt(7)), Some(amt(14)));
    assert_eq!(amt(100).checked_div(amt(0)), None);
    assert!(amt(3).lt(&amt(4)));
    assert!(!amt(4).lt(&amt(4)));
    assert!(Amount::zero().is_zero());
}

#[test]
fn amount_map_keeps_insertion_order_and_unique_keys() {
    let mut m = AmountMap::new();
    let (a, b) = (Address::new(0, 1), Address::new(5, 0));
    m.insert(b, amt(2));
    m.insert(a, amt(1));
    m.insert(b, amt(3));
    assert_eq!(m.entries, vec![(b, amt(3)), (a, amt(1))]);
    assert_eq!(m.saturating_sum(amt(10)), amt(14));
    assert_eq!(m.checked_sum(), Some(amt(4)));
    m.remove(&b);
    assert_eq!(m.entries, vec![(a, amt(1))]);
    assert_eq!(m.get(&b), None);
    assert_eq!(m.len(), 1);
}

#[test]
fn wallet_voting_power_is_derived() {
    let mut w = Wallet::new(Address::new(0, 1), 5);
    w.shares = amt(8);
    w.delegated.insert(Address::new(0, 2), amt(3));
    w.update_voting_power();
    assert_eq!(w.voting_power, amt(11));
    w.delegates = Some(Delegation { address: Address::new(0, 3), shares: amt(8), tm: 0 });
    w.update_voting_power();
    assert_eq!(w.voting_power, amt(3));
}

#[test]
fn voting_keys_tell_agents_apart() {
    assert_eq!(voting_to_u64(&VotingAgent::Primary, 5), Some(10));
    assert_eq!(voting_to_u64(&VotingAgent::Secondary, 5), Some(11));
    assert_eq!(voting_to_u64(&VotingAgent::Secondary, u64::MAX / 2 + 1), None);
    assert_eq!(voting_to_string(&VotingAgent::Secondary, 61), Some("123".to_string()));
    assert_eq!(voting_to_string(&VotingAgent::Primary, 0), Some("0".to_string()));
    let e = Api3::ExecuteVote { agent: VotingAgent::Secondary, vote_id: 2 };
    assert_eq!(e.get_voting(), Some(5));
    assert!(e.get_wallets().is_empty());
    let d = Api3::DelegatedV0 { from: Address::new(0, 1), to: Address::new(0, 2), shares: amt(0) };
    assert_eq!(d.get_wallets(), vec![Address::new(0, 1), Address::new(0, 2)]);
}

#[test]
fn known_decimals() {
    assert_eq!(get_known_decimals(), vec![("USDC".to_string(), 6), ("API3".to_string(), 18)]);
    assert_eq!(AppState::new(1).decimals, get_known_decimals());
}

#[test]
fn label_badge_holds_its_texts() {
    let l = LabelBadge::new("badge-x", "x", "the x");
    assert_eq!((l.class.as_str(), l.text.as_str(), l.title.as_str()), ("badge-x", "x", "the x"));
}

#[test]
fn labels_of_a_supporter_that_delegates() {
    let mut s = AppState::new(1);
    let a = Address::new(0, 1);
    s.update(
        dao_ledger::events::OnChainEvent {
            entry: Api3::StakedV0 { user: a, amount: amt(5), minted_shares: amt(5) },
            tm: 1,
            block_number: 1,
            tx: dao_ledger::address::TxHash { hi: 0, lo: 0 },
            log_index: 0,
        },
        None,
    )
    .unwrap();
    s.delegate(&a, &a, 2).unwrap();
    let i = s.find_wallet(&a).unwrap();
    let texts: Vec<String> = s.get_labels(&s.wallets[i]).iter().map(|l| l.text.clone()).collect();
    assert_eq!(texts, vec!["supporter".to_string(), "delegates".to_string()]);
    s.wallets[i].withdrawn = amt(1);
    s.wallets[i].supporter = false;
    let texts: Vec<String> = s.get_labels(&s.wallets[i]).iter().map(|l| l.text.clone()).collect();
    assert_eq!(texts, vec!["withdrawn".to_string(), "delegates".to_string()]);
}

#[test]
fn mostly_withdrawn_threshold() {
    assert!(withdrew_most(&amt(91), &amt(100)));
    assert!(!withdrew_most(&amt(90), &amt(100)));
    assert!(!withdrew_most(&amt(0), &amt(0)));
    assert!(withdrew_most(&amt(1), &amt(0)));
}

#[test]
fn treasury_update_stamps_the_time() {
    let mut t = Treasury::new("primary".to_string(), Address::new(0, 9));
    assert_eq!(t.updated_at, 0);
    t.update(vec![("API3".to_string(), amt(12))]);
    assert!(t.updated_at > 1_600_000_000);
    assert_eq!(t.balances, vec![("API3".to_string(), amt(12))]);
    t.update_at(Vec::new(), 77);
    assert_eq!(t.updated_at, 77);
}
