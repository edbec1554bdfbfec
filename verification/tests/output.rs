use celld::output_gate::{
    Barrier, GateEffect, GateOwner, Held, Phase, ProofStep, RequestError, SettleStep, State,
};
use celld::repl::cell::ProofSource;

fn state() -> State<char, u32> {
    let mut state = State::new();
    for (request, cell) in [(1, "a"), (2, "a"), (3, "b"), (4, "gone")] {
        state.active_requests.insert(request, cell.to_string());
    }
    state.cells.insert("a".to_string(), Phase::Resident { epoch: 5 });
    state.cells.insert("b".to_string(), Phase::Elsewhere);
    state
}

fn held(request: u64, channel: char) -> Held<char> {
    Held { request, channel }
}

fn open_write(state: &mut State<char, u32>, request: u64, position: u64) -> u64 {
    match state.output(held(request, 'w'), Some(position)) {
        Some(GateEffect::AwaitDurable {
            op,
            cell,
            epoch,
            position: asked,
        }) => {
            assert_eq!((cell.as_str(), epoch, asked), ("a", 5, position));
            op
        }
        other => panic!("{other:?}"),
    }
}

fn released(effect: Option<GateEffect<char>>) -> (u64, char, Result<(), RequestError>) {
    match effect {
        Some(GateEffect::Release { held, result }) => (held.request, held.channel, result),
        other => panic!("{other:?}"),
    }
}

fn settled(step: ProofStep<char, u32>) -> Vec<String> {
    match step {
        ProofStep::Settle(steps) => steps
            .iter()
            .map(|step| match step {
                SettleStep::Release { held, result } => {
                    format!("{} {} {}", held.request, held.channel, result.is_ok())
                }
                SettleStep::Alarm { alarm, cell, epoch, proven } => {
                    format!("alarm {alarm} {cell} {epoch} {proven}")
                }
                SettleStep::Reset { cell, epoch } => format!("reset {cell} {epoch}"),
            })
            .collect(),
        other => panic!("{other:?}"),
    }
}

#[test]
fn a_write_waits_for_a_proof_that_covers_it() {
    let mut state = state();
    let op = open_write(&mut state, 1, 7);
    let step = state.durable_reached(op, Some(7), ProofSource::Fleet);
    assert_eq!(settled(step), vec!["1 w true"]);
    // A second completion finds nothing.
    assert!(matches!(
        state.durable_reached(op, Some(7), ProofSource::Fleet),
        ProofStep::Ignore
    ));
}

#[test]
fn a_shorter_proof_fails_the_write_and_resets_the_cell() {
    let mut state = state();
    let op = open_write(&mut state, 1, 7);
    assert!(state.output(held(2, 'r'), None).is_none());
    let step = state.durable_reached(op, Some(6), ProofSource::Fleet);
    assert_eq!(settled(step), vec!["1 w false", "2 r false", "reset a 5"]);
    let op = open_write(&mut state, 1, 8);
    let step = state.durable_reached(op, None, ProofSource::Bucket);
    assert_eq!(settled(step), vec!["1 w false", "reset a 5"]);
}

#[test]
fn a_bucket_proof_waits_for_the_owner() {
    let mut state = state();
    let op = open_write(&mut state, 1, 7);
    match state.durable_reached(op, Some(9), ProofSource::Bucket) {
        ProofStep::Ask(GateEffect::VerifyOwnership { op: asked, cell, epoch }) => {
            assert_eq!((asked, cell.as_str(), epoch), (op, "a", 5));
        }
        other => panic!("{other:?}"),
    }
    let step = state.ownership_verified(op, true);
    assert_eq!(settled(step), vec!["1 w true"]);
    let op = open_write(&mut state, 1, 7);
    let _ = state.durable_reached(op, Some(9), ProofSource::Bucket);
    let step = state.ownership_verified(op, false);
    assert_eq!(settled(step), vec!["1 w false", "reset a 5"]);
    assert!(matches!(state.ownership_verified(op, true), ProofStep::Ignore));
}

#[test]
fn a_reader_trails_the_newest_barrier_of_its_cell() {
    let mut state = state();
    let first = open_write(&mut state, 1, 1);
    let second = open_write(&mut state, 1, 2);
    assert!(second > first);
    assert!(state.output(held(2, 'r'), None).is_none());
    let step = state.durable_reached(first, Some(1), ProofSource::Fleet);
    assert_eq!(settled(step), vec!["1 w true"]);
    let step = state.durable_reached(second, Some(2), ProofSource::Fleet);
    assert_eq!(settled(step), vec!["1 w true", "2 r true"]);
    // With no barrier open it leaves at once, on any cell.
    assert_eq!(released(state.output(held(2, 'r'), None)), (2, 'r', Ok(())));
    assert_eq!(released(state.output(held(3, 'r'), None)), (3, 'r', Ok(())));
}

#[test]
fn outputs_of_no_live_request_fail() {
    let mut state = state();
    let unproven = Err(RequestError::DurabilityUnproven);
    assert_eq!(released(state.output(held(9, 'x'), None)), (9, 'x', unproven));
    assert_eq!(released(state.output(held(9, 'x'), Some(1))), (9, 'x', unproven));
    // A write on a cell that is not resident cannot be proven.
    assert_eq!(released(state.output(held(3, 'x'), Some(1))), (3, 'x', unproven));
    assert_eq!(released(state.output(held(4, 'x'), Some(1))), (4, 'x', unproven));
}

#[test]
fn an_alarm_settles_with_its_followers() {
    let mut state = state();
    state.barriers.insert(
        state.next_op,
        Barrier {
            owner: GateOwner::Alarm(77),
            cell: "a".to_string(),
            epoch: 5,
            position: 3,
            followers: vec![],
        },
    );
    let op = state.next_op;
    state.next_op += 1;
    assert!(state.output(held(2, 'r'), None).is_none());
    let step = state.durable_reached(op, Some(2), ProofSource::Fleet);
    assert_eq!(settled(step), vec!["alarm 77 a 5 false", "2 r false", "reset a 5"]);
}

#[test]
fn a_pinned_request_is_unpinned_on_release() {
    let mut state = state();
    state.gate_pinned.insert(1, ());
    let (ended, effect) = state.release_held(held(1, 'w'), Ok(()));
    assert!(ended);
    assert_eq!(released(Some(effect)), (1, 'w', Ok(())));
    let (ended, _) = state.release_held(held(1, 'w'), Ok(()));
    assert!(!ended);
}

#[test]
fn the_route_decides_nothing() {
    for position in [None, Some(7)] {
        for request in [1, 2, 3, 4, 9] {
            let run = |route: char| {
                let mut state = state();
                let op = open_write(&mut state, 1, 3);
                let effect = state.output(held(request, route), position);
                let line: Vec<u64> = match state.durable_reached(op, Some(3), ProofSource::Fleet) {
                    ProofStep::Settle(steps) => steps
                        .iter()
                        .map(|step| match step {
                            SettleStep::Release { held, .. } => held.request,
                            _ => 0,
                        })
                        .collect(),
                    other => panic!("{other:?}"),
                };
                let told = match effect {
                    None => "held".to_string(),
                    Some(GateEffect::Release { held, result }) => {
                        assert_eq!(held.channel, route);
                        format!("release {} {result:?}", held.request)
                    }
                    Some(other) => format!("{other:?}"),
                };
                (told, line, state.next_op)
            };
            assert_eq!(run('x'), run('y'));
        }
    }
}
