//! Governance proposals and their tallies.

use vstd::prelude::*;
use crate::address::{Address, TxHash};
use crate::amount::{Amount, saturate};
use crate::amount_map::{AmountMap, get_of, insert_of, keys_unique, remove_of, sum_of};
use crate::events::{VotingAgent, decimal, voting_key, voting_to_string, voting_to_u64};

verus! {

/// The pieces of `s` between the `|` characters, as `str::split` gives them.
pub open spec fn split_bar(s: Seq<char>) -> Seq<Seq<char>>
    decreases s.len(),
{
    if s.len() == 0 {
        seq![Seq::empty()]
    } else {
        let rest = split_bar(s.drop_first());
        if s[0] == '|' {
            seq![Seq::<char>::empty()] + rest
        } else {
            rest.update(0, seq![s[0]] + rest[0])
        }
    }
}

/// The title of a proposal: the third piece of its metadata, or the whole
/// metadata where there is none.
pub open spec fn title_of(metadata: Seq<char>) -> Seq<char> {
    if split_bar(metadata).len() > 2 {
        split_bar(metadata)[2]
    } else {
        metadata
    }
}

/// The description of a proposal: the fourth piece of its metadata, or empty.
pub open spec fn description_of(metadata: Seq<char>) -> Seq<char> {
    if split_bar(metadata).len() > 3 {
        split_bar(metadata)[3]
    } else {
        Seq::empty()
    }
}

/// Relies on `str::split` with the pattern `"|"`: the pieces between the
/// separators, in order, empty ones included.
#[verifier::external_body]
fn split_bar_pieces(s: &str) -> (r: Vec<String>)
    ensures
        r@.len() == split_bar(s@).len(),
        forall|i: int| 0 <= i < r@.len() ==> (#[trigger] r@[i])@ == split_bar(s@)[i],
{
    s.split("|").map(|p| p.to_string()).collect()
}

/// A governance proposal of one of the two voting agents.
pub struct Voting {
    pub primary: bool,
    pub vote_id: u64,
    pub tm: u64,
    pub block_number: u64,
    pub tx: TxHash,
    pub creator: Address,
    pub metadata: String,
    pub title: String,
    pub description: String,
    /// sum of the `yes` votes
    pub voted_yes: Amount,
    /// sum of the `no` votes
    pub voted_no: Amount,
    /// the latest supporting vote of each voter, with its weight
    pub yes: AmountMap,
    /// the latest opposing vote of each voter, with its weight
    pub no: AmountMap,
    /// total voting power of the DAO when the proposal started
    pub votes_total: Amount,
    pub executed: bool,
}

/// The value of a `Voting`.
pub struct VotingView {
    pub primary: bool,
    pub vote_id: u64,
    pub tm: u64,
    pub block_number: u64,
    pub tx: TxHash,
    pub creator: Address,
    pub metadata: Seq<char>,
    pub title: Seq<char>,
    pub description: Seq<char>,
    pub voted_yes: Amount,
    pub voted_no: Amount,
    pub yes: Seq<(Address, Amount)>,
    pub no: Seq<(Address, Amount)>,
    pub votes_total: Amount,
    pub executed: bool,
}

impl View for Voting {
    type V = VotingView;

    open spec fn view(&self) -> VotingView {
        VotingView {
            primary: self.primary,
            vote_id: self.vote_id,
            tm: self.tm,
            block_number: self.block_number,
            tx: self.tx,
            creator: self.creator,
            metadata: self.metadata@,
            title: self.title@,
            description: self.description@,
            voted_yes: self.voted_yes,
            voted_no: self.voted_no,
            yes: self.yes@,
            no: self.no@,
            votes_total: self.votes_total,
            executed: self.executed,
        }
    }
}

/// The tally of a map of votes.
pub open spec fn tally(s: Seq<(Address, Amount)>) -> Amount {
    Amount::from_nat(saturate(sum_of(s)))
}

/// A proposal just started by `creator`, whose voting power counts as the
/// first supporting vote.
pub open spec fn started(
    agent: VotingAgent,
    vote_id: u64,
    creator: Address,
    metadata: Seq<char>,
    creator_power: Amount,
    votes_total: Amount,
    tm: u64,
    block_number: u64,
    tx: TxHash,
) -> VotingView {
    VotingView {
        primary: agent == VotingAgent::Primary,
        vote_id,
        tm,
        block_number,
        tx,
        creator,
        metadata,
        title: title_of(metadata),
        description: description_of(metadata),
        voted_yes: creator_power,
        voted_no: Amount::from_nat(0),
        yes: seq![(creator, creator_power)],
        no: Seq::empty(),
        votes_total,
        executed: false,
    }
}

/// `v` after `voter` votes with weight `stake`: the vote replaces any
/// earlier one of the same voter, on either side.
pub open spec fn cast_spec(v: VotingView, voter: Address, supports: bool, stake: Amount) -> VotingView {
    let yes = if supports {
        insert_of(v.yes, voter, stake)
    } else {
        remove_of(v.yes, voter)
    };
    let no = if supports {
        remove_of(v.no, voter)
    } else {
        insert_of(v.no, voter, stake)
    };
    VotingView { yes, no, voted_yes: tally(yes), voted_no: tally(no), ..v }
}

/// The vote maps of a proposal have unique keys.
pub open spec fn voting_wf(v: VotingView) -> bool {
    keys_unique(v.yes) && keys_unique(v.no)
}

impl Voting {
    /// A proposal just started by `creator`, whose voting power counts as
    /// the first supporting vote.
    pub fn start(
        agent: VotingAgent,
        vote_id: u64,
        creator: Address,
        metadata: &String,
        creator_power: Amount,
        votes_total: Amount,
        tm: u64,
        block_number: u64,
        tx: TxHash,
    ) -> (r: Voting)
        ensures
            r@ == started(agent, vote_id, creator, metadata@, creator_power, votes_total, tm, block_number, tx),
            voting_wf(r@),
    {
        let parts = split_bar_pieces(metadata.as_str());
        let title = if parts.len() > 2 {
            parts[2].clone()
        } else {
            metadata.clone()
        };
        let description = if parts.len() > 3 {
            parts[3].clone()
        } else {
            String::new()
        };
        let mut yes = AmountMap::new();
        yes.insert(creator, creator_power);
        proof {
            reveal_with_fuel(crate::amount_map::index_of, 2);
            assert(yes@ =~= seq![(creator, creator_power)]);
        }
        let r = Voting {
            primary: match agent {
                VotingAgent::Primary => true,
                VotingAgent::Secondary => false,
            },
            vote_id,
            tm,
            block_number,
            tx,
            creator,
            metadata: metadata.clone(),
            title,
            description,
            voted_yes: creator_power,
            voted_no: Amount::zero(),
            yes,
            no: AmountMap::new(),
            votes_total,
            executed: false,
        };
        proof {
            assert(r.description@ =~= description_of(metadata@));
        }
        r
    }

    pub fn agent(&self) -> (r: VotingAgent)
        ensures
            r == (if self.primary {
                VotingAgent::Primary
            } else {
                VotingAgent::Secondary
            }),
    {
        if self.primary {
            VotingAgent::Primary
        } else {
            VotingAgent::Secondary
        }
    }

    /// The key that the proposal is stored under.
    pub fn as_u64(&self) -> (r: Option<u64>)
        ensures
            r == voting_key(
                if self.primary {
                    VotingAgent::Primary
                } else {
                    VotingAgent::Secondary
                },
                self.vote_id,
            ),
    {
        voting_to_u64(&self.agent(), self.vote_id)
    }

    /// The display form of the key that the proposal is stored under.
    pub fn key(&self) -> (r: Option<String>)
        ensures
            r is Some <==> self.as_u64_spec() is Some,
            r matches Some(t) ==> t@ == decimal(self.as_u64_spec().unwrap() as nat),
    {
        voting_to_string(&self.agent(), self.vote_id)
    }

    /// The key that the proposal is stored under.
    pub open spec fn as_u64_spec(&self) -> Option<u64> {
        voting_key(
            if self.primary {
                VotingAgent::Primary
            } else {
                VotingAgent::Secondary
            },
            self.vote_id,
        )
    }

    /// Records the latest vote of `voter`, replacing any earlier one, and
    /// recomputes both tallies.
    pub fn cast(&mut self, voter: Address, supports: bool, stake: Amount)
        requires
            voting_wf(old(self)@),
        ensures
            final(self)@ == cast_spec(old(self)@, voter, supports, stake),
            voting_wf(final(self)@),
    {
        if supports {
            self.yes.insert(voter, stake);
            self.no.remove(&voter);
        } else {
            self.no.insert(voter, stake);
            self.yes.remove(&voter);
        }
        self.voted_yes = self.yes.saturating_sum(Amount::zero());
        self.voted_no = self.no.saturating_sum(Amount::zero());
    }
}

/// A later vote replaces an earlier one of the same voter: after a
/// supporting vote and then an opposing one, the voter counts on the
/// opposing side alone, with the later weight, and each tally is the sum of
/// the other voters' votes plus, on its side, that weight.
pub proof fn law_vote_overwrite(v: VotingView, voter: Address, first: Amount, second: Amount)
    requires
        voting_wf(v),
    ensures
        ({
            let v1 = cast_spec(v, voter, true, first);
            let v2 = cast_spec(v1, voter, false, second);
            &&& get_of(v2.yes, voter) is None
            &&& get_of(v2.no, voter) == Some(second)
            &&& sum_of(v2.yes) == sum_of(remove_of(v.yes, voter))
            &&& sum_of(v2.no) == sum_of(remove_of(v.no, voter)) + second@
            &&& v2.voted_yes == tally(v2.yes)
            &&& v2.voted_no == tally(v2.no)
        }),
{
    let v1 = cast_spec(v, voter, true, first);
    let v2 = cast_spec(v1, voter, false, second);
    crate::amount_map::lemma_insert_get(v.yes, voter, first);
    crate::amount_map::lemma_remove_get(v.no, voter);
    crate::amount_map::lemma_remove_get(v1.yes, voter);
    crate::amount_map::lemma_insert_get(v1.no, voter, second);
    crate::amount_map::lemma_sum_remove_key(v1.yes, voter);
    crate::amount_map::lemma_sum_insert(v.yes, voter, first);
    crate::amount_map::lemma_sum_remove_key(v.yes, voter);
    crate::amount_map::lemma_sum_insert(v1.no, voter, second);
}

} // verus!
