use eval_wasm::eval::{next_frame, process_edges, State};
use eval_wasm::log::NoTrace;
use eval_wasm::types::{Edge, EdgeKind};

const UNUSED: Edge = (0, 0, 0, 0);

fn pass(values: &mut [bool], kinds: &[EdgeKind], edges: &[Edge], kind: EdgeKind) -> bool {
    let len = values.len();
    let mut state = State::new(values, kinds, edges, len, 0).unwrap();
    process_edges(&mut state, kind, &mut NoTrace::new())
}

fn tick(values: &mut [bool], kinds: &[EdgeKind], edges: &[Edge], positive: usize) -> bool {
    let len = values.len();
    let mut state = State::new(values, kinds, edges, len, positive).unwrap();
    next_frame(&mut state, &mut NoTrace::new())
}

#[test]
fn or_gate_is_the_or_of_its_four_sources() {
    // Elements 2 to 5 hold the inputs. They are NOR-type, so the OR-type
    // pass leaves them alone and recomputes element 6 only.
    let mut kinds = vec![EdgeKind::Negative; 7];
    kinds[6] = EdgeKind::Positive;
    let edges = vec![UNUSED, UNUSED, UNUSED, UNUSED, UNUSED, UNUSED, (2, 3, 4, 5)];
    for bits in 0..16u32 {
        let inputs: Vec<bool> = (0..4).map(|i| bits & (1 << i) != 0).collect();
        for preset in [false, true] {
            let mut values = vec![false, false];
            values.extend(inputs.iter());
            values.push(preset);
            let expected = bits != 0;
            let changed = pass(&mut values, &kinds, &edges, EdgeKind::Positive);
            assert_eq!(values[6], expected);
            assert_eq!(changed, expected != preset);
            assert_eq!(&values[2..6], &inputs[..]);
        }
    }
}

#[test]
fn nor_gate_is_the_nor_of_its_four_sources() {
    // Elements 2 to 5 hold the inputs. They are OR-type, so the NOR-type
    // pass leaves them alone and recomputes element 6 only.
    let mut kinds = vec![EdgeKind::Positive; 7];
    kinds[6] = EdgeKind::Negative;
    let edges = vec![UNUSED, UNUSED, UNUSED, UNUSED, UNUSED, UNUSED, (2, 3, 4, 5)];
    for bits in 0..16u32 {
        let inputs: Vec<bool> = (0..4).map(|i| bits & (1 << i) != 0).collect();
        for preset in [false, true] {
            let mut values = vec![false, false];
            values.extend(inputs.iter());
            values.push(preset);
            let expected = bits == 0;
            let changed = pass(&mut values, &kinds, &edges, EdgeKind::Negative);
            assert_eq!(values[6], expected);
            assert_eq!(changed, expected != preset);
            assert_eq!(&values[2..6], &inputs[..]);
        }
    }
}

#[test]
fn a_pass_skips_elements_of_the_other_kind() {
    let mut values = vec![false, true, false, true];
    let kinds = vec![
        EdgeKind::Positive,
        EdgeKind::Positive,
        EdgeKind::Positive,
        EdgeKind::Negative,
    ];
    let edges = vec![UNUSED, UNUSED, (1, 1, 1, 1), (1, 1, 1, 1)];
    assert!(pass(&mut values, &kinds, &edges, EdgeKind::Negative));
    assert_eq!(values, vec![false, true, false, false]);
    assert!(pass(&mut values, &kinds, &edges, EdgeKind::Positive));
    assert_eq!(values, vec![false, true, true, false]);
    assert!(!pass(&mut values, &kinds, &edges, EdgeKind::Positive));
    assert!(!pass(&mut values, &kinds, &edges, EdgeKind::Negative));
}

#[test]
fn a_pass_reads_earlier_elements_as_it_left_them() {
    // A chain in ascending order: 2 reads 1, 3 reads 2, 4 reads 3.
    let mut values = vec![false, true, false, false, false];
    let kinds = vec![EdgeKind::Positive; 5];
    let edges = vec![UNUSED, UNUSED, (1, 0, 0, 0), (2, 0, 0, 0), (3, 0, 0, 0)];
    assert!(pass(&mut values, &kinds, &edges, EdgeKind::Positive));
    assert_eq!(values, vec![false, true, true, true, true]);
}

#[test]
fn a_pass_reads_later_elements_as_they_were() {
    // The same chain in descending order: 4 reads 1, 3 reads 4, 2 reads 3.
    let mut values = vec![false, true, false, false, false];
    let kinds = vec![EdgeKind::Positive; 5];
    let edges = vec![UNUSED, UNUSED, (3, 0, 0, 0), (4, 0, 0, 0), (1, 0, 0, 0)];
    assert!(pass(&mut values, &kinds, &edges, EdgeKind::Positive));
    assert_eq!(values, vec![false, true, false, false, true]);
    assert!(pass(&mut values, &kinds, &edges, EdgeKind::Positive));
    assert_eq!(values, vec![false, true, false, true, true]);
    assert!(pass(&mut values, &kinds, &edges, EdgeKind::Positive));
    assert_eq!(values, vec![false, true, true, true, true]);
    assert!(!pass(&mut values, &kinds, &edges, EdgeKind::Positive));
}

#[test]
fn an_element_that_reads_itself_reads_its_old_value() {
    let mut values = vec![false, false, false, true];
    let kinds = vec![
        EdgeKind::Positive,
        EdgeKind::Positive,
        EdgeKind::Negative,
        EdgeKind::Negative,
    ];
    let edges = vec![UNUSED, UNUSED, (2, 0, 0, 0), (3, 0, 0, 0)];
    assert!(pass(&mut values, &kinds, &edges, EdgeKind::Negative));
    assert_eq!(values, vec![false, false, true, false]);
}

#[test]
fn first_phase_runs_one_pass_more_than_the_declared_count() {
    // A descending chain of four OR-type elements needs four passes.
    let kinds = vec![EdgeKind::Positive; 6];
    let edges =
        vec![UNUSED, UNUSED, (3, 0, 0, 0), (4, 0, 0, 0), (5, 0, 0, 0), (1, 0, 0, 0)];
    let start = vec![false, true, false, false, false, false];

    let mut values = start.clone();
    assert!(tick(&mut values, &kinds, &edges, 0));
    assert_eq!(values, vec![false, true, false, false, false, true]);

    let mut values = start.clone();
    assert!(tick(&mut values, &kinds, &edges, 1));
    assert_eq!(values, vec![false, true, false, false, true, true]);

    let mut values = start.clone();
    assert!(tick(&mut values, &kinds, &edges, 2));
    assert_eq!(values, vec![false, true, false, true, true, true]);

    let mut values = start.clone();
    assert!(tick(&mut values, &kinds, &edges, 3));
    assert_eq!(values, vec![false, true, true, true, true, true]);

    let mut values = start.clone();
    assert!(tick(&mut values, &kinds, &edges, 4));
    assert_eq!(values, vec![false, true, true, true, true, true]);
}

#[test]
fn acyclic_network_converges_within_its_or_count() {
    // Four OR-type elements and a declared count of four: the first phase
    // ends at a fixed point of the OR-type pass.
    let kinds = vec![EdgeKind::Positive; 6];
    let edges =
        vec![UNUSED, UNUSED, (3, 0, 0, 0), (4, 0, 0, 0), (5, 0, 0, 0), (1, 0, 0, 0)];
    let mut values = vec![false, true, false, false, false, false];
    assert!(tick(&mut values, &kinds, &edges, 4));
    let settled = values.clone();
    assert!(!pass(&mut values, &kinds, &edges, EdgeKind::Positive));
    assert_eq!(values, settled);
}

#[test]
fn understated_count_stops_short_without_a_fault() {
    let kinds = vec![EdgeKind::Positive; 6];
    let edges =
        vec![UNUSED, UNUSED, (3, 0, 0, 0), (4, 0, 0, 0), (5, 0, 0, 0), (1, 0, 0, 0)];
    let mut values = vec![false, true, false, false, false, false];
    assert!(tick(&mut values, &kinds, &edges, 1));
    assert_eq!(values, vec![false, true, false, false, true, true]);
    // The element at 2 does not yet hold the OR of its sources.
    assert!(pass(&mut values, &kinds, &edges, EdgeKind::Positive));
}

#[test]
fn oscillating_loop_is_cut_off_at_the_bound() {
    // 2 reads 3, 3 reads 4, 4 reads 2: a single true value travels round
    // the loop against the order of evaluation and never settles.
    let kinds = vec![EdgeKind::Positive; 5];
    let edges = vec![UNUSED, UNUSED, (3, 0, 0, 0), (4, 0, 0, 0), (2, 0, 0, 0)];
    let start = vec![false, false, false, true, false];

    let mut values = start.clone();
    assert!(tick(&mut values, &kinds, &edges, 0));
    assert_eq!(values, vec![false, false, true, false, true]);

    // Two passes bring the start back, and the tick still reports change.
    let mut values = start.clone();
    assert!(tick(&mut values, &kinds, &edges, 1));
    assert_eq!(values, start);

    let mut values = start.clone();
    assert!(tick(&mut values, &kinds, &edges, 2));
    assert_eq!(values, vec![false, false, true, false, true]);

    let mut values = start.clone();
    assert!(tick(&mut values, &kinds, &edges, 5));
    assert_eq!(values, start);
}

#[test]
fn nor_pass_runs_once_after_the_or_passes() {
    // 2 is the NOR of 3; 3 is the OR of the constant at 1.
    let mut values = vec![false, true, true, false];
    let kinds = vec![
        EdgeKind::Positive,
        EdgeKind::Positive,
        EdgeKind::Negative,
        EdgeKind::Positive,
    ];
    let edges = vec![UNUSED, UNUSED, (3, 0, 0, 0), (1, 0, 0, 0)];
    assert!(tick(&mut values, &kinds, &edges, 1));
    assert_eq!(values, vec![false, true, false, true]);
    assert!(!tick(&mut values, &kinds, &edges, 1));
}

#[test]
fn or_elements_see_nor_changes_in_the_next_tick() {
    // 2 is the OR of 3; 3 is the NOR of the constant at 0.
    let mut values = vec![false, false, false, false];
    let kinds = vec![
        EdgeKind::Positive,
        EdgeKind::Positive,
        EdgeKind::Positive,
        EdgeKind::Negative,
    ];
    let edges = vec![UNUSED, UNUSED, (3, 0, 0, 0), (0, 0, 0, 0)];
    assert!(tick(&mut values, &kinds, &edges, 1));
    assert_eq!(values, vec![false, false, false, true]);
    assert!(tick(&mut values, &kinds, &edges, 1));
    assert_eq!(values, vec![false, false, true, true]);
    assert!(!tick(&mut values, &kinds, &edges, 1));
}

#[test]
fn one_nor_pass_suffices_when_no_nor_reads_a_nor() {
    let mut values = vec![false, true, false, true, false];
    let kinds = vec![
        EdgeKind::Positive,
        EdgeKind::Positive,
        EdgeKind::Negative,
        EdgeKind::Negative,
        EdgeKind::Positive,
    ];
    let edges = vec![UNUSED, UNUSED, (4, 0, 0, 0), (1, 4, 0, 0), UNUSED];
    assert!(pass(&mut values, &kinds, &edges, EdgeKind::Negative));
    assert_eq!(values, vec![false, true, true, false, false]);
    assert!(!pass(&mut values, &kinds, &edges, EdgeKind::Negative));
}

#[test]
fn one_nor_pass_falls_short_when_a_nor_reads_a_later_nor() {
    // 2 is the NOR of 3, and 3 is the NOR of the constant at 1.
    let mut values = vec![false, true, false, true];
    let kinds = vec![
        EdgeKind::Positive,
        EdgeKind::Positive,
        EdgeKind::Negative,
        EdgeKind::Negative,
    ];
    let edges = vec![UNUSED, UNUSED, (3, 0, 0, 0), (1, 0, 0, 0)];
    assert!(tick(&mut values, &kinds, &edges, 0));
    // 3 fell to false after 2 had read it as true.
    assert_eq!(values, vec![false, true, false, false]);
    assert!(tick(&mut values, &kinds, &edges, 0));
    assert_eq!(values, vec![false, true, true, false]);
    assert!(!tick(&mut values, &kinds, &edges, 0));
}
