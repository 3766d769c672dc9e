//! The checkpoint store: per-account, append-only logs of weight changes.

use std::collections::HashMap;
use vstd::prelude::*;

verus! {

broadcast use vstd::std_specs::hash::group_hash_axioms;

/// An account identity, as the store keys its logs.
pub type AccountId = u64;

/// One immutable history entry: as of time step `from_block`, the account's
/// voting weight became `votes`.
#[derive(Clone, Copy, Debug, PartialEq, Eq, Structural)]
pub struct Checkpoint {
    pub from_block: u32,
    pub votes: u32,
}

/// The one failure an append can report: a decrement was requested while the
/// account's current weight is already zero.
#[derive(Clone, Copy, Debug, PartialEq, Eq, Structural)]
pub enum CheckpointError {
    InvalidDecrement,
}

/// The checkpoint log of `account` in the store model `m`: its entry in the
/// map, or the empty sequence while the account has no history yet.
pub open spec fn account_log(m: Map<AccountId, Seq<Checkpoint>>, account: AccountId) -> Seq<
    Checkpoint,
> {
    if m.contains_key(account) {
        m[account]
    } else {
        Seq::empty()
    }
}

/// Time steps never decrease along a log.
pub open spec fn log_sorted(log: Seq<Checkpoint>) -> bool {
    forall|i: int, j: int| 0 <= i <= j < log.len() ==> log[i].from_block <= log[j].from_block
}

/// A well-formed log: sorted by time step, and opened by a weight-increasing
/// event, so its first weight is at least one.
pub open spec fn log_wf(log: Seq<Checkpoint>) -> bool {
    &&& log_sorted(log)
    &&& log.len() > 0 ==> log[0].votes >= 1
}

/// Every account's log in the store model `m` is well formed.
pub open spec fn store_wf(m: Map<AccountId, Seq<Checkpoint>>) -> bool {
    forall|a: AccountId| log_wf(#[trigger] account_log(m, a))
}

/// The most recent checkpoint of a log, if any.
pub open spec fn spec_last_checkpoint(log: Seq<Checkpoint>) -> Option<Checkpoint> {
    if log.len() == 0 {
        None
    } else {
        Some(log.last())
    }
}

/// The current weight a log records: that of its most recent checkpoint, or
/// zero while there is no history.
pub open spec fn spec_current_votes(log: Seq<Checkpoint>) -> u32 {
    if log.len() == 0 {
        0
    } else {
        log.last().votes
    }
}

/// The caller's clock discipline: a new entry's time step may not precede
/// the last one already recorded.
pub open spec fn can_append_time(log: Seq<Checkpoint>, current_block: u32) -> bool {
    log.len() == 0 || log.last().from_block <= current_block
}

/// An append is valid when the clock discipline holds, an increment does not
/// overflow the weight, and a decrement finds a positive weight.
pub open spec fn can_append(
    m: Map<AccountId, Seq<Checkpoint>>,
    account: AccountId,
    increment: bool,
    current_block: u32,
) -> bool {
    &&& can_append_time(account_log(m, account), current_block)
    &&& increment ==> spec_current_votes(account_log(m, account)) < u32::MAX
    &&& !increment ==> spec_current_votes(account_log(m, account)) >= 1
}

/// The checkpoint an append writes: the current weight moved one step up or
/// down, stamped with `current_block`.
pub open spec fn appended_checkpoint(
    log: Seq<Checkpoint>,
    increment: bool,
    current_block: u32,
) -> Checkpoint {
    Checkpoint {
        from_block: current_block,
        votes: if increment {
            (spec_current_votes(log) + 1) as u32
        } else {
            (spec_current_votes(log) - 1) as u32
        },
    }
}

/// The store model after an append: the account's log grows by exactly one
/// entry; every other log is untouched.
pub open spec fn spec_append(
    m: Map<AccountId, Seq<Checkpoint>>,
    account: AccountId,
    increment: bool,
    current_block: u32,
) -> Map<AccountId, Seq<Checkpoint>> {
    m.insert(
        account,
        account_log(m, account).push(
            appended_checkpoint(account_log(m, account), increment, current_block),
        ),
    )
}

/// The index of the last checkpoint of `log` whose time step is at most
/// `wanted_block`, or `-1` if every entry is later than `wanted_block`.
pub open spec fn floor_idx(log: Seq<Checkpoint>, wanted_block: u32) -> int
    decreases log.len(),
{
    if log.len() == 0 {
        -1
    } else if log.last().from_block <= wanted_block {
        log.len() - 1
    } else {
        floor_idx(log.drop_last(), wanted_block)
    }
}

/// A floor query has a result exactly when the queried time step is not in
/// the future, the account has history, and its history does not begin
/// after the queried step.
pub open spec fn spec_query_has_result(
    log: Seq<Checkpoint>,
    wanted_block: u32,
    current_block: u32,
) -> bool {
    wanted_block <= current_block && log.len() > 0 && log[0].from_block <= wanted_block
}

/// The weight a floor query answers: that of the last checkpoint at or
/// before `wanted_block`, or zero when the query has no result.
pub open spec fn spec_votes_at(log: Seq<Checkpoint>, wanted_block: u32, current_block: u32) -> u32 {
    if spec_query_has_result(log, wanted_block, current_block) {
        log[floor_idx(log, wanted_block)].votes
    } else {
        0
    }
}

/// What `floor_idx` finds: an in-range index whose entry is at or before the
/// queried step, with every later entry after it.
pub proof fn lemma_floor_idx(log: Seq<Checkpoint>, wanted_block: u32)
    ensures
        -1 <= floor_idx(log, wanted_block) < log.len(),
        0 <= floor_idx(log, wanted_block) ==> log[floor_idx(
            log,
            wanted_block,
        )].from_block <= wanted_block,
        forall|j: int|
            floor_idx(log, wanted_block) < j < log.len() ==> #[trigger] log[j].from_block
                > wanted_block,
    decreases log.len(),
{
    if log.len() > 0 && log.last().from_block > wanted_block {
        lemma_floor_idx(log.drop_last(), wanted_block);
        assert forall|j: int| floor_idx(log, wanted_block) < j < log.len() implies #[trigger] log[
            j
        ].from_block > wanted_block by {
            if j < log.len() - 1 {
                assert(log[j] == log.drop_last()[j]);
            }
        }
    }
}

/// `floor_idx` is at least any index whose entry is at or before the queried
/// step.
pub proof fn lemma_floor_idx_at_least(log: Seq<Checkpoint>, wanted_block: u32, i: int)
    requires
        0 <= i < log.len(),
        log[i].from_block <= wanted_block,
    ensures
        i <= floor_idx(log, wanted_block),
    decreases log.len(),
{
    if log.last().from_block > wanted_block {
        lemma_floor_idx_at_least(log.drop_last(), wanted_block, i);
    }
}

/// The index characterization of `floor_idx`: an in-range index at or before
/// the queried step, followed only by later entries, is the floor index.
pub proof fn lemma_floor_idx_is(log: Seq<Checkpoint>, wanted_block: u32, i: int)
    requires
        0 <= i < log.len(),
        log[i].from_block <= wanted_block,
        forall|j: int| i < j < log.len() ==> #[trigger] log[j].from_block > wanted_block,
    ensures
        floor_idx(log, wanted_block) == i,
{
    lemma_floor_idx(log, wanted_block);
    lemma_floor_idx_at_least(log, wanted_block, i);
}

/// An account with no history weighs nothing: its current weight is zero,
/// and no point-in-time query on it has a result.
pub proof fn lemma_no_history_zero_weight(log: Seq<Checkpoint>, block: u32, current_block: u32)
    requires
        log.len() == 0,
    ensures
        spec_current_votes(log) == 0,
        !spec_query_has_result(log, block, current_block),
        spec_votes_at(log, block, current_block) == 0,
{
}

/// Appending never shortens or rewrites history: every account's log before
/// an append is a prefix of its log after it, and immediately after the
/// append the most recent checkpoint of the appended account is the entry
/// just written.
pub proof fn lemma_append_only(
    m: Map<AccountId, Seq<Checkpoint>>,
    account: AccountId,
    increment: bool,
    current_block: u32,
)
    ensures
        forall|a: AccountId|
            (#[trigger] account_log(m, a)).is_prefix_of(
                account_log(spec_append(m, account, increment, current_block), a),
            ),
        spec_last_checkpoint(account_log(spec_append(m, account, increment, current_block), account))
            == Some(
            appended_checkpoint(account_log(m, account), increment, current_block),
        ),
{
    let appended = spec_append(m, account, increment, current_block);
    assert forall|a: AccountId|
        (#[trigger] account_log(m, a)).is_prefix_of(account_log(appended, a)) by {
        if a == account {
            let old_log = account_log(m, account);
            assert(old_log =~= account_log(appended, account).subrange(0, old_log.len() as int));
        } else {
            assert(account_log(appended, a) == account_log(m, a));
            assert(account_log(m, a) =~= account_log(appended, a).subrange(
                0,
                account_log(m, a).len() as int,
            ));
        }
    }
}

/// The store: for each account that has history, its checkpoint log. The
/// number of checkpoints of an account is the length of its log, so the count
/// and the log can never disagree.
pub struct CheckpointData {
    logs: HashMap<AccountId, Vec<Checkpoint>>,
}

impl View for CheckpointData {
    type V = Map<AccountId, Seq<Checkpoint>>;

    closed spec fn view(&self) -> Map<AccountId, Seq<Checkpoint>> {
        self.logs@.map_values(|log: Vec<Checkpoint>| log@)
    }
}

impl CheckpointData {
    /// The store's invariant: every account's log is well formed.
    pub open spec fn wf(&self) -> bool {
        store_wf(self@)
    }

    /// An empty store: no account has any history.
    pub fn new() -> (store: Self)
        ensures
            store@ == Map::<AccountId, Seq<Checkpoint>>::empty(),
            store.wf(),
    {
        let store = CheckpointData { logs: HashMap::new() };
        proof {
            assert(store@ =~= Map::<AccountId, Seq<Checkpoint>>::empty());
        }
        store
    }

    /// The most recent checkpoint of `account_id`, or `None` while the
    /// account has no history.
    pub fn get_last_checkpoint(&self, account_id: AccountId) -> (r: Option<Checkpoint>)
        ensures
            r == spec_last_checkpoint(account_log(self@, account_id)),
    {
        match self.logs.get(&account_id) {
            None => None,
            Some(log) => {
                if log.len() == 0 {
                    None
                } else {
                    Some(log[log.len() - 1])
                }
            },
        }
    }

    /// The floor query: the latest checkpoint of `account_id` at or before
    /// time step `wanted_block`. Returns `None` exactly when the query lies
    /// in the future, the account has no history, or its history begins
    /// after `wanted_block`; several checkpoints may share the floor time
    /// step, and the last of them is returned.
    pub fn get_checkpoint_at_block(
        &self,
        account_id: AccountId,
        wanted_block: u32,
        current_block: u32,
    ) -> (r: Option<Checkpoint>)
        requires
            self.wf(),
        ensures
            ({
                let log = account_log(self@, account_id);
                match r {
                    None => !spec_query_has_result(log, wanted_block, current_block),
                    Some(c) => {
                        &&& spec_query_has_result(log, wanted_block, current_block)
                        &&& 0 <= floor_idx(log, wanted_block) < log.len()
                        &&& c == log[floor_idx(log, wanted_block)]
                    },
                }
            }),
    {
        if wanted_block > current_block {
            return None;
        }
        let ghost glog = account_log(self@, account_id);
        let log = match self.logs.get(&account_id) {
            None => {
                proof {
                    lemma_floor_idx(glog, wanted_block);
                }
                return None;
            },
            Some(log) => log,
        };
        let n = log.len();
        if n == 0 {
            proof {
                lemma_floor_idx(glog, wanted_block);
            }
            return None;
        }
        if log[0].from_block > wanted_block {
            proof {
                lemma_floor_idx(glog, wanted_block);
                if 0 <= floor_idx(glog, wanted_block) {
                    assert(glog[floor_idx(glog, wanted_block)].from_block >= glog[0].from_block);
                }
            }
            return None;
        }
        let mut lower: usize = 0;
        let mut upper: usize = n - 1;
        while upper > lower
            invariant
                glog == account_log(self@, account_id),
                glog == log@,
                wanted_block <= current_block,
                n == glog.len(),
                glog[0].from_block <= wanted_block,
                log_sorted(glog),
                lower <= upper < n,
                glog[lower as int].from_block <= wanted_block,
                forall|j: int| upper < j < n ==> #[trigger] glog[j].from_block > wanted_block,
            decreases upper - lower,
        {
            let center = upper - (upper - lower) / 2;
            if log[center].from_block <= wanted_block {
                lower = center;
            } else {
                upper = center - 1;
            }
        }
        proof {
            lemma_floor_idx_is(glog, wanted_block, lower as int);
        }
        Some(log[lower])
    }

    /// Appends one checkpoint for `account`: its current weight moved one
    /// step up (`increment`) or down, stamped with `current_block`. The
    /// account's first append must be an increment, and a decrement of a
    /// zero weight is rejected with the log left untouched; no entry already
    /// written is ever rewritten.
    pub fn add_new_checkpoint_to_account(
        &mut self,
        account: AccountId,
        increment: bool,
        current_block: u32,
    ) -> (r: Result<(), CheckpointError>)
        requires
            old(self).wf(),
            can_append_time(account_log(old(self)@, account), current_block),
            increment ==> spec_current_votes(account_log(old(self)@, account)) < u32::MAX,
        ensures
            final(self).wf(),
            r is Ok <==> (increment || spec_current_votes(account_log(old(self)@, account)) >= 1),
            r is Ok ==> final(self)@ == spec_append(old(self)@, account, increment, current_block),
            r is Ok ==> spec_last_checkpoint(account_log(final(self)@, account)) == Some(
                appended_checkpoint(account_log(old(self)@, account), increment, current_block),
            ),
            r is Err ==> final(self)@ == old(self)@ && r == Err::<(), CheckpointError>(
                CheckpointError::InvalidDecrement,
            ),
            forall|a: AccountId|
                (#[trigger] account_log(old(self)@, a)).is_prefix_of(account_log(final(self)@, a)),
    {
        let last = self.get_last_checkpoint(account);
        let next_votes: u32 = match last {
            None => {
                if !increment {
                    return Err(CheckpointError::InvalidDecrement);
                }
                1
            },
            Some(cp) => {
                if increment {
                    cp.votes + 1
                } else {
                    if cp.votes == 0 {
                        return Err(CheckpointError::InvalidDecrement);
                    }
                    cp.votes - 1
                }
            },
        };
        let ghost old_map = self@;
        let ghost old_log = account_log(old_map, account);
        let mut log = match self.logs.remove(&account) {
            None => Vec::new(),
            Some(stored) => stored,
        };
        log.push(Checkpoint { from_block: current_block, votes: next_votes });
        self.logs.insert(account, log);
        proof {
            let new_map = self@;
            let added = appended_checkpoint(old_log, increment, current_block);
            assert(new_map =~= spec_append(old_map, account, increment, current_block));
            assert(account_log(new_map, account) == old_log.push(added));
            assert forall|a: AccountId| log_wf(#[trigger] account_log(new_map, a)) by {
                if a == account {
                    let new_log = account_log(new_map, account);
                    assert forall|i: int, j: int| 0 <= i <= j < new_log.len() implies new_log[
                        i
                    ].from_block <= new_log[j].from_block by {
                        if j == new_log.len() - 1 && i < j {
                            assert(old_log[i].from_block <= old_log[old_log.len()
                                - 1].from_block);
                        }
                    }
                } else {
                    assert(account_log(new_map, a) == account_log(old_map, a));
                }
            }
            assert forall|a: AccountId|
                (#[trigger] account_log(old_map, a)).is_prefix_of(
                    account_log(new_map, a),
                ) by {
                if a == account {
                    assert(old_log =~= old_log.push(added).subrange(0, old_log.len() as int));
                } else {
                    assert(account_log(old_map, a) =~= account_log(new_map, a).subrange(
                        0,
                        account_log(old_map, a).len() as int,
                    ));
                }
            }
        }
        Ok(())
    }
}

} // verus!
