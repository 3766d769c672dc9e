use aaw::checkpoint::CheckpointError;
use aaw::governance::Aaw;

const OWNER: u64 = 100;
const A: u64 = 1;
const B: u64 = 2;
const C: u64 = 3;

#[test]
fn accounts_without_history_weigh_zero() {
    let contract = Aaw::new(OWNER);
    assert_eq!(contract.get_current_votes(A), 0);
    assert_eq!(contract.get_votes_at_block(A, 0, 100), 0);
    assert_eq!(contract.get_votes_at_block(A, 100, 100), 0);
}

#[test]
fn only_the_owner_may_mint() {
    let contract = Aaw::new(OWNER);
    assert!(contract.mint_allowed(OWNER));
    assert!(!contract.mint_allowed(A));
}

#[test]
fn mint_and_transfer_move_weight_by_net_count() {
    // Mints and transfers in increasing time-step order; afterwards every
    // account weighs its net count of increases minus decreases.
    let mut contract = Aaw::new(OWNER);
    contract.on_mint(A, 1);
    contract.on_mint(A, 2);
    contract.on_mint(B, 3);
    assert_eq!(contract.on_transfer(A, B, 4), Ok(()));
    contract.on_mint(C, 5);
    assert_eq!(contract.on_transfer(B, C, 6), Ok(()));
    assert_eq!(contract.get_current_votes(A), 1); // 2 minted - 1 sent
    assert_eq!(contract.get_current_votes(B), 1); // 1 minted + 1 received - 1 sent
    assert_eq!(contract.get_current_votes(C), 2); // 1 minted + 1 received
}

#[test]
fn transfer_from_empty_sender_fails_and_changes_nothing() {
    let mut contract = Aaw::new(OWNER);
    contract.on_mint(B, 1);
    assert_eq!(
        contract.on_transfer(A, B, 2),
        Err(CheckpointError::InvalidDecrement)
    );
    assert_eq!(contract.get_current_votes(A), 0);
    assert_eq!(contract.get_current_votes(B), 1);
    assert_eq!(contract.get_votes_at_block(B, 2, 10), 1);
}

#[test]
fn transfer_at_zero_weight_fails_and_changes_nothing() {
    let mut contract = Aaw::new(OWNER);
    contract.on_mint(A, 1);
    assert_eq!(contract.on_transfer(A, B, 2), Ok(()));
    assert_eq!(contract.get_current_votes(A), 0);
    // A has history, but its weight is back to zero: sending again fails.
    assert_eq!(
        contract.on_transfer(A, C, 3),
        Err(CheckpointError::InvalidDecrement)
    );
    assert_eq!(contract.get_current_votes(A), 0);
    assert_eq!(contract.get_current_votes(B), 1);
    assert_eq!(contract.get_current_votes(C), 0);
    assert_eq!(contract.get_votes_at_block(A, 3, 10), 0);
}

#[test]
fn future_time_step_weighs_zero_regardless_of_history() {
    let mut contract = Aaw::new(OWNER);
    contract.on_mint(A, 1);
    contract.on_mint(A, 2);
    assert_eq!(contract.get_votes_at_block(A, 6, 5), 0);
    assert_eq!(contract.get_votes_at_block(A, 5, 5), 2);
}

#[test]
fn historical_weights_with_duplicate_steps() {
    // A's checkpoints land at steps [10, 10, 25, 40] with weights [1, 2, 1, 2].
    let mut contract = Aaw::new(OWNER);
    contract.on_mint(A, 10);
    contract.on_mint(A, 10);
    assert_eq!(contract.on_transfer(A, B, 25), Ok(()));
    contract.on_mint(A, 40);
    assert_eq!(contract.get_votes_at_block(A, 5, 200), 0);
    assert_eq!(contract.get_votes_at_block(A, 10, 200), 2);
    assert_eq!(contract.get_votes_at_block(A, 24, 200), 2);
    assert_eq!(contract.get_votes_at_block(A, 25, 200), 1);
    assert_eq!(contract.get_votes_at_block(A, 100, 200), 2);
}

#[test]
fn self_transfer_keeps_weight_and_appends_both_checkpoints() {
    let mut contract = Aaw::new(OWNER);
    contract.on_mint(A, 1);
    assert_eq!(contract.on_transfer(A, A, 2), Ok(()));
    assert_eq!(contract.get_current_votes(A), 1);
    // Both sides of the transfer were recorded: the weight dipped to zero
    // within step 2 before coming back.
    assert_eq!(contract.get_votes_at_block(A, 1, 2), 1);
    assert_eq!(contract.get_votes_at_block(A, 2, 2), 1);
}

#[test]
fn largest_time_step_is_queryable() {
    let mut contract = Aaw::new(OWNER);
    contract.on_mint(A, u32::MAX);
    assert_eq!(contract.get_current_votes(A), 1);
    assert_eq!(contract.get_votes_at_block(A, u32::MAX, u32::MAX), 1);
    assert_eq!(contract.get_votes_at_block(A, u32::MAX - 1, u32::MAX), 0);
}

#[test]
fn end_to_end_snapshot_scenario() {
    // Mint to A at step 1; transfer A to B at step 2; mint to A at step 2.
    let mut contract = Aaw::new(OWNER);
    contract.on_mint(A, 1);
    assert_eq!(contract.on_transfer(A, B, 2), Ok(()));
    contract.on_mint(A, 2);
    assert_eq!(contract.get_votes_at_block(A, 1, 2), 1);
    assert_eq!(contract.get_votes_at_block(A, 2, 2), 1);
    assert_eq!(contract.get_votes_at_block(B, 1, 2), 0);
    assert_eq!(contract.get_votes_at_block(B, 2, 2), 1);
    assert_eq!(contract.get_current_votes(A), 1);
    assert_eq!(contract.get_current_votes(B), 1);
}
