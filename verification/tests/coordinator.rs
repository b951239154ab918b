use ssal::coordinator::Coordinator;
use ssal::error::Error;
use ssal::interface::GetBlock;
use ssal::rollup::RollupSet;
use ssal::round::{Block, BlockReceipt, RawTransaction, Round};
use ssal::sequencer::{SequencerEntry, SequencerSet};

fn id(name: &str) -> String {
    name.to_string()
}

fn tx(data: &str) -> RawTransaction {
    RawTransaction::new(data.to_string())
}

fn entry(name: &str, at: u64) -> SequencerEntry {
    SequencerEntry::new(name.to_string(), at)
}

fn block(round: u64, position: u64, rollup: &str, data: &str) -> Block {
    Block { round, position, rollup: rollup.to_string(), raw_tx: tx(data) }
}

fn with_abc_and_rollup() -> Coordinator {
    let mut state = Coordinator::new();
    assert_eq!(state.register_sequencer(id("A"), 1), Ok(()));
    assert_eq!(state.register_sequencer(id("B"), 2), Ok(()));
    assert_eq!(state.register_sequencer(id("C"), 3), Ok(()));
    assert_eq!(state.register_rollup(id("R")), Ok(()));
    state
}

fn leader_is_registered(state: &Coordinator) -> bool {
    match state.get_leader() {
        Some(leader) => state.sequencers().list().contains(&leader),
        None => state.sequencers().len() == 0,
    }
}

#[test]
fn a_fresh_service_has_no_leader() {
    let state = Coordinator::new();
    assert_eq!(state.get_leader(), None);
    assert_eq!(state.round().number(), 0);
    assert!(!state.round().is_open());
    assert_eq!(state.sequencers().len(), 0);
    assert_eq!(state.rollups().len(), 0);
    assert!(state.committed().is_empty());
}

#[test]
fn the_first_sequencer_opens_round_one_and_leads_it() {
    let mut state = Coordinator::new();
    assert_eq!(state.register_sequencer(id("A"), 5), Ok(()));
    assert_eq!(state.get_leader(), Some(entry("A", 5)));
    assert_eq!(state.round().number(), 1);
    assert!(state.round().is_open());
    assert_eq!(state.register_sequencer(id("B"), 6), Ok(()));
    assert_eq!(state.get_leader(), Some(entry("A", 5)));
    assert_eq!(state.round().number(), 1);
    assert_eq!(state.sequencers().list(), vec![entry("A", 5), entry("B", 6)]);
}

#[test]
fn registering_a_sequencer_twice_is_a_conflict() {
    let mut state = Coordinator::new();
    assert_eq!(state.register_sequencer(id("A"), 5), Ok(()));
    assert_eq!(state.register_sequencer(id("A"), 9), Err(Error::AlreadyRegistered));
    assert_eq!(state.sequencers().list(), vec![entry("A", 5)]);
    assert_eq!(state.round().number(), 1);
}

#[test]
fn rollups_are_registered_and_deregistered() {
    let mut state = Coordinator::new();
    assert_eq!(state.deregister_rollup(&id("R")), Err(Error::NotRegistered));
    assert_eq!(state.register_rollup(id("R")), Ok(()));
    assert_eq!(state.register_rollup(id("R")), Err(Error::AlreadyRegistered));
    assert!(state.rollups().contains(&id("R")));
    assert_eq!(state.deregister_rollup(&id("R")), Ok(()));
    assert!(!state.rollups().contains(&id("R")));
    assert_eq!(state.round().number(), 0);
    assert_eq!(state.get_leader(), None);
}

#[test]
fn an_accepted_block_closes_the_round_and_opens_the_next() {
    let mut state = with_abc_and_rollup();
    let receipt = state.close_block_with(&id("R"), tx("tx1"), 2).expect("accepted");
    assert_eq!(receipt, BlockReceipt { round: 1, position: 0, leader: entry("C", 3) });
    assert_eq!(state.round().number(), 2);
    assert_eq!(state.get_leader(), Some(entry("C", 3)));
    assert_eq!(state.round().accepted(), 0);
    assert_eq!(state.committed(), &vec![block(1, 0, "R", "tx1")]);
    let receipt = state.close_block_with(&id("R"), tx("tx2"), 0).expect("accepted");
    assert_eq!(receipt, BlockReceipt { round: 2, position: 0, leader: entry("A", 1) });
    assert_eq!(state.round().number(), 3);
    assert_eq!(state.get_leader(), Some(entry("A", 1)));
    assert_eq!(state.committed(), &vec![block(1, 0, "R", "tx1"), block(2, 0, "R", "tx2")]);
}

#[test]
fn the_same_leader_may_be_elected_again() {
    let mut state = with_abc_and_rollup();
    let receipt = state.close_block_with(&id("R"), tx("tx1"), 0).expect("accepted");
    assert_eq!(receipt.leader, entry("A", 1));
    assert_eq!(state.get_leader(), Some(entry("A", 1)));
    assert_eq!(state.round().number(), 2);
}

#[test]
fn a_resubmitted_transaction_gives_a_second_block() {
    let mut state = with_abc_and_rollup();
    let first = state.close_block_with(&id("R"), tx("same"), 1).expect("accepted");
    let second = state.close_block_with(&id("R"), tx("same"), 1).expect("accepted");
    assert_eq!(first.round, 1);
    assert_eq!(second.round, 2);
    assert_eq!(state.committed(), &vec![block(1, 0, "R", "same"), block(2, 0, "R", "same")]);
}

#[test]
fn a_block_of_an_unregistered_rollup_is_refused_and_changes_nothing() {
    let mut state = with_abc_and_rollup();
    let _ = state.close_block_with(&id("R"), tx("tx1"), 1).expect("accepted");
    let sequencers = state.sequencers().list();
    let rollups = state.rollups().list();
    let leader = state.get_leader();
    let number = state.round().number();
    let committed = state.committed().clone();
    assert_eq!(state.close_block_with(&id("S"), tx("tx2"), 2), Err(Error::UnregisteredRollup));
    assert_eq!(state.close_block(&id("S"), tx("tx2")), Err(Error::UnregisteredRollup));
    assert_eq!(
        GetBlock::handler(&mut state, &id("S"), GetBlock::new(tx("tx2"))),
        Err(Error::UnregisteredRollup)
    );
    assert_eq!(state.sequencers().list(), sequencers);
    assert_eq!(state.rollups().list(), rollups);
    assert_eq!(state.get_leader(), leader);
    assert_eq!(state.round().number(), number);
    assert_eq!(state.round().accepted(), 0);
    assert_eq!(state.committed(), &committed);
}

#[test]
fn an_unregistered_rollup_is_refused_before_the_round_is_looked_at() {
    let mut state = Coordinator::new();
    assert_eq!(state.close_block_with(&id("R"), tx("tx1"), 0), Err(Error::UnregisteredRollup));
    assert_eq!(state.close_block(&id("R"), tx("tx1")), Err(Error::UnregisteredRollup));
    assert_eq!(state.round().number(), 0);
    assert!(state.committed().is_empty());
}

#[test]
fn a_block_without_an_open_round_is_refused() {
    let mut state = Coordinator::new();
    assert_eq!(state.register_rollup(id("R")), Ok(()));
    assert_eq!(state.close_block_with(&id("R"), tx("tx1"), 0), Err(Error::NoActiveRound));
    assert_eq!(state.close_block(&id("R"), tx("tx1")), Err(Error::NoActiveRound));
    assert_eq!(state.round().number(), 0);
    assert_eq!(state.get_leader(), None);
    assert!(state.committed().is_empty());
}

#[test]
fn a_deregistered_rollup_can_no_longer_submit() {
    let mut state = with_abc_and_rollup();
    assert_eq!(state.deregister_rollup(&id("R")), Ok(()));
    assert_eq!(state.close_block_with(&id("R"), tx("tx1"), 0), Err(Error::UnregisteredRollup));
    assert_eq!(state.round().number(), 1);
}

#[test]
fn only_the_leader_leads() {
    let mut state = Coordinator::new();
    assert!(!state.is_led_by(&id("A")));
    assert_eq!(state.register_sequencer(id("A"), 1), Ok(()));
    assert_eq!(state.register_sequencer(id("B"), 2), Ok(()));
    assert!(state.is_led_by(&id("A")));
    assert!(!state.is_led_by(&id("B")));
    assert!(!state.is_led_by(&id("X")));
}

#[test]
fn deregistering_a_follower_leaves_the_round_alone() {
    let mut state = with_abc_and_rollup();
    assert_eq!(state.deregister_sequencer_with(&id("B"), 1), Ok(()));
    assert_eq!(state.get_leader(), Some(entry("A", 1)));
    assert_eq!(state.round().number(), 1);
    assert_eq!(state.sequencers().list(), vec![entry("A", 1), entry("C", 3)]);
    assert_eq!(state.deregister_sequencer(&id("C")), Ok(()));
    assert_eq!(state.get_leader(), Some(entry("A", 1)));
    assert_eq!(state.round().number(), 1);
}

#[test]
fn deregistering_the_leader_elects_another() {
    let mut state = with_abc_and_rollup();
    assert_eq!(state.deregister_sequencer_with(&id("A"), 1), Ok(()));
    assert_eq!(state.sequencers().list(), vec![entry("B", 2), entry("C", 3)]);
    assert_eq!(state.get_leader(), Some(entry("C", 3)));
    assert_eq!(state.round().number(), 2);
    assert!(state.committed().is_empty());
    assert_eq!(state.deregister_sequencer_with(&id("C"), 0), Ok(()));
    assert_eq!(state.get_leader(), Some(entry("B", 2)));
    assert_eq!(state.round().number(), 3);
}

#[test]
fn deregistering_the_last_sequencer_leaves_no_leader() {
    let mut state = Coordinator::new();
    assert_eq!(state.register_sequencer(id("A"), 1), Ok(()));
    assert_eq!(state.register_rollup(id("R")), Ok(()));
    assert_eq!(state.deregister_sequencer(&id("A")), Ok(()));
    assert_eq!(state.get_leader(), None);
    assert_eq!(state.round().number(), 1);
    assert!(!state.round().is_open());
    assert_eq!(state.close_block(&id("R"), tx("tx1")), Err(Error::NoActiveRound));
    assert_eq!(state.register_sequencer(id("B"), 2), Ok(()));
    assert_eq!(state.get_leader(), Some(entry("B", 2)));
    assert_eq!(state.round().number(), 2);
    let receipt = state.close_block(&id("R"), tx("tx1")).expect("accepted");
    assert_eq!(receipt, BlockReceipt { round: 2, position: 0, leader: entry("B", 2) });
}

#[test]
fn the_service_refuses_to_deregister_an_unknown_sequencer() {
    let mut state = with_abc_and_rollup();
    assert_eq!(state.deregister_sequencer_with(&id("X"), 0), Err(Error::NotRegistered));
    assert_eq!(state.deregister_sequencer(&id("X")), Err(Error::NotRegistered));
    assert_eq!(state.sequencers().len(), 3);
    assert_eq!(state.get_leader(), Some(entry("A", 1)));
    assert_eq!(state.round().number(), 1);
}

#[test]
fn the_leader_is_registered_after_every_request() {
    let mut state = Coordinator::new();
    assert!(leader_is_registered(&state));
    let names = ["A", "B", "C", "D", "E"];
    for (at, name) in names.iter().enumerate() {
        let _ = state.register_sequencer(id(name), at as u64);
        assert!(leader_is_registered(&state));
    }
    let _ = state.register_rollup(id("R"));
    for round in 0..35u32 {
        let _ = state.close_block(&id("R"), tx("payload"));
        assert!(leader_is_registered(&state));
        if round % 7 == 3 {
            let leader = state.get_leader().expect("sequencers remain");
            assert_eq!(state.deregister_sequencer(&leader.identity), Ok(()));
            assert!(leader_is_registered(&state));
            assert_ne!(state.get_leader(), Some(leader));
        }
    }
    assert_eq!(state.sequencers().len(), 0);
    assert_eq!(state.get_leader(), None);
}

#[test]
fn random_elections_move_the_leadership_around() {
    let mut state = with_abc_and_rollup();
    let mut led = [false; 3];
    for _ in 0..300 {
        let receipt = state.close_block(&id("R"), tx("payload")).expect("accepted");
        let at = state.sequencers().position(&receipt.leader.identity).expect("registered");
        led[at] = true;
        assert_eq!(state.get_leader(), Some(receipt.leader));
    }
    assert_eq!(led, [true, true, true]);
    assert_eq!(state.round().number(), 301);
    assert_eq!(state.committed().len(), 300);
}

#[test]
fn the_round_number_grows_by_one_with_each_accepted_block() {
    let mut state = with_abc_and_rollup();
    for expected in 1..=25u64 {
        assert_eq!(state.round().number(), expected);
        let receipt = state.close_block(&id("R"), tx("payload")).expect("accepted");
        assert_eq!(receipt.round, expected);
        assert_eq!(receipt.position, 0);
        assert_eq!(state.round().number(), expected + 1);
        assert!(state.sequencers().contains(&receipt.leader.identity));
    }
}

#[test]
fn the_handler_accepts_the_payload_as_a_block() {
    let mut state = with_abc_and_rollup();
    let payload = GetBlock::new(tx("tx1"));
    assert_eq!(payload.raw_tx(), &tx("tx1"));
    let receipt = GetBlock::handler(&mut state, &id("R"), payload.clone()).expect("accepted");
    assert_eq!(receipt.round, 1);
    assert_eq!(receipt.position, 0);
    assert_eq!(state.get_leader(), Some(receipt.leader));
    assert_eq!(state.round().number(), 2);
    assert_eq!(state.committed(), &vec![block(1, 0, "R", "tx1")]);
    let mut idle = Coordinator::new();
    assert_eq!(idle.register_rollup(id("R")), Ok(()));
    assert_eq!(GetBlock::handler(&mut idle, &id("R"), payload), Err(Error::NoActiveRound));
}

#[test]
fn a_service_is_restored_from_consistent_parts() {
    let sequencers =
        SequencerSet::from_entries(vec![entry("A", 1), entry("B", 2)]).expect("distinct");
    let mut rollups = RollupSet::new();
    assert_eq!(rollups.register(id("R")), Ok(()));
    let round = Round::from_parts(7, Some(entry("B", 2)), vec![block(7, 0, "R", "early")])
        .expect("valid round");
    let committed = vec![block(6, 0, "R", "old")];
    let mut state =
        Coordinator::from_parts(sequencers, rollups, round, committed).expect("consistent");
    assert_eq!(state.get_leader(), Some(entry("B", 2)));
    assert_eq!(state.round().number(), 7);
    let receipt = state.close_block_with(&id("R"), tx("late"), 0).expect("accepted");
    assert_eq!(receipt, BlockReceipt { round: 7, position: 1, leader: entry("A", 1) });
    assert_eq!(
        state.committed(),
        &vec![block(6, 0, "R", "old"), block(7, 0, "R", "early"), block(7, 1, "R", "late")]
    );
    assert_eq!(state.round().number(), 8);
}

#[test]
fn deregistering_the_leader_commits_the_blocks_of_its_round() {
    let sequencers =
        SequencerSet::from_entries(vec![entry("A", 1), entry("B", 2)]).expect("distinct");
    let round = Round::from_parts(3, Some(entry("A", 1)), vec![block(3, 0, "R", "kept")])
        .expect("valid round");
    let mut state = Coordinator::from_parts(sequencers, RollupSet::new(), round, Vec::new())
        .expect("consistent");
    assert_eq!(state.deregister_sequencer(&id("A")), Ok(()));
    assert_eq!(state.get_leader(), Some(entry("B", 2)));
    assert_eq!(state.round().number(), 4);
    assert_eq!(state.committed(), &vec![block(3, 0, "R", "kept")]);
}

#[test]
fn a_service_is_not_restored_with_a_leader_that_is_not_registered() {
    let sequencers = SequencerSet::from_entries(vec![entry("A", 1)]).expect("distinct");
    let round = Round::from_parts(2, Some(entry("B", 2)), Vec::new()).expect("valid round");
    assert!(Coordinator::from_parts(sequencers, RollupSet::new(), round, Vec::new()).is_none());
    let sequencers = SequencerSet::from_entries(vec![entry("A", 1)]).expect("distinct");
    let round = Round::from_parts(2, Some(entry("A", 9)), Vec::new()).expect("valid round");
    assert!(Coordinator::from_parts(sequencers, RollupSet::new(), round, Vec::new()).is_none());
    let round = Round::from_parts(2, Some(entry("A", 1)), Vec::new()).expect("valid round");
    assert!(
        Coordinator::from_parts(SequencerSet::new(), RollupSet::new(), round, Vec::new()).is_none()
    );
}

#[test]
fn a_service_is_not_restored_with_sequencers_and_no_leader() {
    let sequencers = SequencerSet::from_entries(vec![entry("A", 1)]).expect("distinct");
    assert!(
        Coordinator::from_parts(sequencers, RollupSet::new(), Round::new(), Vec::new()).is_none()
    );
    assert!(
        Coordinator::from_parts(SequencerSet::new(), RollupSet::new(), Round::new(), Vec::new())
            .is_some()
    );
}

#[test]
fn a_refused_request_changes_nothing() {
    let mut state = with_abc_and_rollup();
    let _ = state.close_block_with(&id("R"), tx("tx1"), 1).expect("accepted");
    let sequencers = state.sequencers().list();
    let rollups = state.rollups().list();
    let leader = state.get_leader();
    let number = state.round().number();
    let committed = state.committed().clone();

    assert_eq!(state.register_sequencer(id("B"), 99), Err(Error::AlreadyRegistered));
    assert_eq!(state.deregister_sequencer_with(&id("X"), 0), Err(Error::NotRegistered));
    assert_eq!(state.deregister_sequencer(&id("X")), Err(Error::NotRegistered));
    assert_eq!(state.register_rollup(id("R")), Err(Error::AlreadyRegistered));
    assert_eq!(state.deregister_rollup(&id("S")), Err(Error::NotRegistered));
    assert_eq!(state.close_block_with(&id("S"), tx("tx2"), 0), Err(Error::UnregisteredRollup));

    assert_eq!(state.sequencers().list(), sequencers);
    assert_eq!(state.rollups().list(), rollups);
    assert_eq!(state.get_leader(), leader);
    assert_eq!(state.round().number(), number);
    assert_eq!(state.round().accepted(), 0);
    assert_eq!(state.committed(), &committed);
}
