//! The governance facade: the weight update hook the token ledger drives,
//! and the query surface for current and historical voting weights.

use crate::checkpoint::{
    account_log, appended_checkpoint, can_append, can_append_time, spec_append,
    spec_current_votes, spec_votes_at, store_wf, AccountId, Checkpoint,
    CheckpointData, CheckpointError,
};
use vstd::prelude::*;

verus! {

/// A balance-changing event the token ledger reports after it has committed
/// the ownership change: a mint credits one account, a transfer moves one
/// token between two.
pub enum Event {
    Minted { account: AccountId },
    Transferred { from: AccountId, to: AccountId },
}

/// An event together with the time step at which it was reported.
pub struct TimedEvent {
    pub event: Event,
    pub time_step: u32,
}

/// The store model after one event: a mint appends one increment; a transfer
/// appends a decrement for the sender, then an increment for the receiver.
pub open spec fn apply_event(
    m: Map<AccountId, Seq<Checkpoint>>,
    e: Event,
    time_step: u32,
) -> Map<AccountId, Seq<Checkpoint>> {
    match e {
        Event::Minted { account } => spec_append(m, account, true, time_step),
        Event::Transferred { from, to } => spec_append(
            spec_append(m, from, false, time_step),
            to,
            true,
            time_step,
        ),
    }
}

/// The event is valid on the store model `m`: each append it causes obeys
/// the clock discipline, a transfer finds a positive sender weight, and no
/// weight overflows.
pub open spec fn event_valid(m: Map<AccountId, Seq<Checkpoint>>, e: Event, time_step: u32) -> bool {
    match e {
        Event::Minted { account } => can_append(m, account, true, time_step),
        Event::Transferred { from, to } => can_append(m, from, false, time_step) && can_append(
            spec_append(m, from, false, time_step),
            to,
            true,
            time_step,
        ),
    }
}

/// Each event of the sequence is valid on the store model the ones before it
/// produce.
pub open spec fn events_valid(m: Map<AccountId, Seq<Checkpoint>>, events: Seq<TimedEvent>) -> bool
    decreases events.len(),
{
    events.len() == 0 || (event_valid(m, events[0].event, events[0].time_step) && events_valid(
        apply_event(m, events[0].event, events[0].time_step),
        events.skip(1),
    ))
}

/// The store model after the whole event sequence.
pub open spec fn apply_events(
    m: Map<AccountId, Seq<Checkpoint>>,
    events: Seq<TimedEvent>,
) -> Map<AccountId, Seq<Checkpoint>>
    decreases events.len(),
{
    if events.len() == 0 {
        m
    } else {
        apply_events(apply_event(m, events[0].event, events[0].time_step), events.skip(1))
    }
}

/// How one event moves the weight of `a`: a mint to `a` adds one; a transfer
/// subtracts one if `a` sends and adds one if `a` receives.
pub open spec fn event_delta(e: Event, a: AccountId) -> int {
    match e {
        Event::Minted { account } => if account == a {
            1int
        } else {
            0int
        },
        Event::Transferred { from, to } => (if to == a {
            1int
        } else {
            0int
        }) - (if from == a {
            1int
        } else {
            0int
        }),
    }
}

/// The net count of weight-increasing minus weight-decreasing events that
/// the sequence applies to `a`.
pub open spec fn net_weight(events: Seq<TimedEvent>, a: AccountId) -> int
    decreases events.len(),
{
    if events.len() == 0 {
        0int
    } else {
        event_delta(events[0].event, a) + net_weight(events.skip(1), a)
    }
}

/// One valid append moves the appended account's current weight by exactly
/// one step, and no other account's weight at all.
pub proof fn lemma_append_votes(
    m: Map<AccountId, Seq<Checkpoint>>,
    account: AccountId,
    increment: bool,
    time_step: u32,
)
    requires
        can_append(m, account, increment, time_step),
    ensures
        spec_current_votes(account_log(spec_append(m, account, increment, time_step), account))
            as int == spec_current_votes(account_log(m, account)) + (if increment {
            1int
        } else {
            -1int
        }),
        forall|a: AccountId|
            a != account ==> #[trigger] account_log(
                spec_append(m, account, increment, time_step),
                a,
            ) == account_log(m, a),
{
    let appended = spec_append(m, account, increment, time_step);
    assert(account_log(appended, account).last() == appended_checkpoint(
        account_log(m, account),
        increment,
        time_step,
    ));
}

/// The net-weight law: after a valid event sequence, every account's current
/// weight has moved from its starting weight by exactly the net count of
/// weight-increasing minus weight-decreasing events applied to it.
pub proof fn lemma_net_weight(
    m: Map<AccountId, Seq<Checkpoint>>,
    events: Seq<TimedEvent>,
    a: AccountId,
)
    requires
        events_valid(m, events),
    ensures
        spec_current_votes(account_log(apply_events(m, events), a)) as int == spec_current_votes(
            account_log(m, a),
        ) + net_weight(events, a),
    decreases events.len(),
{
    if events.len() > 0 {
        let e = events[0].event;
        let t = events[0].time_step;
        match e {
            Event::Minted { account } => {
                lemma_append_votes(m, account, true, t);
            },
            Event::Transferred { from, to } => {
                lemma_append_votes(m, from, false, t);
                lemma_append_votes(spec_append(m, from, false, t), to, true, t);
            },
        }
        lemma_net_weight(apply_event(m, e, t), events.skip(1), a);
    }
}

/// The net-weight law from genesis: starting with no history at all, every
/// account's current weight after a valid event sequence is exactly the net
/// count of weight-increasing minus weight-decreasing events applied to it.
pub proof fn lemma_net_weight_from_genesis(events: Seq<TimedEvent>, a: AccountId)
    requires
        events_valid(Map::<AccountId, Seq<Checkpoint>>::empty(), events),
    ensures
        spec_current_votes(
            account_log(apply_events(Map::<AccountId, Seq<Checkpoint>>::empty(), events), a),
        ) as int == net_weight(events, a),
{
    lemma_net_weight(Map::<AccountId, Seq<Checkpoint>>::empty(), events, a);
}

/// The governance contract state the core keeps: who may mint, and the
/// per-account checkpoint history. Token ownership itself lives with the
/// external token ledger.
pub struct Aaw {
    owner: AccountId,
    checkpoints: CheckpointData,
}

impl View for Aaw {
    type V = Map<AccountId, Seq<Checkpoint>>;

    closed spec fn view(&self) -> Map<AccountId, Seq<Checkpoint>> {
        self.checkpoints@
    }
}

impl Aaw {
    /// The store's invariant carried through the facade.
    pub open spec fn wf(&self) -> bool {
        store_wf(self@)
    }

    /// The account allowed to mint.
    pub closed spec fn spec_owner(&self) -> AccountId {
        self.owner
    }

    /// A fresh contract: owned by its deployer, with no weight history.
    pub fn new(owner: AccountId) -> (c: Self)
        ensures
            c@ == Map::<AccountId, Seq<Checkpoint>>::empty(),
            c.wf(),
            c.spec_owner() == owner,
    {
        Aaw { owner, checkpoints: CheckpointData::new() }
    }

    /// Whether `caller` may mint: only the contract owner is allowed to.
    pub fn mint_allowed(&self, caller: AccountId) -> (r: bool)
        ensures
            r == (caller == self.spec_owner()),
    {
        caller == self.owner
    }

    /// The current voting weight of `account_id`: that of its most recent
    /// checkpoint, or zero while it has no history.
    pub fn get_current_votes(&self, account_id: AccountId) -> (r: u32)
        ensures
            r == spec_current_votes(account_log(self@, account_id)),
            account_log(self@, account_id).len() == 0 ==> r == 0,
    {
        match self.checkpoints.get_last_checkpoint(account_id) {
            None => 0,
            Some(cp) => cp.votes,
        }
    }

    /// The voting weight of `account_id` as of time step `block`: the weight
    /// of the latest checkpoint at or before `block`, or zero when `block`
    /// lies in the future, the account has no history, or its history
    /// begins after `block`.
    pub fn get_votes_at_block(&self, account_id: AccountId, block: u32, current_block: u32) -> (r:
        u32)
        requires
            self.wf(),
        ensures
            ({
                let log = account_log(self@, account_id);
                &&& r == spec_votes_at(log, block, current_block)
                &&& block > current_block ==> r == 0
                &&& log.len() == 0 ==> r == 0
            }),
    {
        match self.checkpoints.get_checkpoint_at_block(account_id, block, current_block) {
            None => 0,
            Some(cp) => cp.votes,
        }
    }

    /// The mint hook, called after the token ledger has committed a mint to
    /// `account` and authorized its caller: records the recipient's weight
    /// moved up by one.
    pub fn on_mint(&mut self, account: AccountId, current_block: u32)
        requires
            old(self).wf(),
            can_append(old(self)@, account, true, current_block),
        ensures
            final(self).wf(),
            final(self)@ == apply_event(
                old(self)@,
                (Event::Minted { account }),
                current_block,
            ),
            final(self).spec_owner() == old(self).spec_owner(),
            forall|a: AccountId|
                (#[trigger] account_log(old(self)@, a)).is_prefix_of(account_log(final(self)@, a)),
    {
        let r = self.checkpoints.add_new_checkpoint_to_account(account, true, current_block);
        proof {
            assert(r is Ok);
        }
    }

    /// The transfer hook, called after the token ledger has committed a
    /// transfer from `from` to `to`: records the sender's weight moved down
    /// by one, then the receiver's moved up by one, as one atomic unit. A
    /// sender weight of zero is rejected with the whole state untouched.
    pub fn on_transfer(&mut self, from: AccountId, to: AccountId, current_block: u32) -> (r: Result<
        (),
        CheckpointError,
    >)
        requires
            old(self).wf(),
            can_append_time(account_log(old(self)@, from), current_block),
            can_append_time(account_log(old(self)@, to), current_block),
            from != to ==> spec_current_votes(account_log(old(self)@, to)) < u32::MAX,
        ensures
            final(self).wf(),
            r is Ok <==> spec_current_votes(account_log(old(self)@, from)) >= 1,
            r is Ok ==> final(self)@ == apply_event(
                old(self)@,
                (Event::Transferred { from, to }),
                current_block,
            ),
            r is Err ==> final(self)@ == old(self)@ && r == Err::<(), CheckpointError>(
                CheckpointError::InvalidDecrement,
            ),
            final(self).spec_owner() == old(self).spec_owner(),
            forall|a: AccountId|
                (#[trigger] account_log(old(self)@, a)).is_prefix_of(account_log(final(self)@, a)),
    {
        let sender_votes = self.get_current_votes(from);
        if sender_votes == 0 {
            return Err(CheckpointError::InvalidDecrement);
        }
        let ghost mid = spec_append(old(self)@, from, false, current_block);
        let r1 = self.checkpoints.add_new_checkpoint_to_account(from, false, current_block);
        proof {
            assert(r1 is Ok);
            assert(account_log(mid, from).last().from_block == current_block);
            if from != to {
                assert(account_log(mid, to) == account_log(old(self)@, to));
            }
        }
        let r2 = self.checkpoints.add_new_checkpoint_to_account(to, true, current_block);
        proof {
            assert(r2 is Ok);
        }
        Ok(())
    }
}

} // verus!
