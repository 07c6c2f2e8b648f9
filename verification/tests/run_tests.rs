use sorthos::engine::{merge_sort_traced, merge_sort_visual, run};
use sorthos::model::{Element, Operation, Pacing, Phase, TimedOp};

fn elems(values: &[u64]) -> Vec<Element> {
    let mut out = Vec::new();
    for v in values {
        out.push(Element { value: *v, phase: Phase::Neutral });
    }
    out
}

fn values_of(bars: &[Element]) -> Vec<u64> {
    let mut out = Vec::new();
    for e in bars {
        out.push(e.value);
    }
    out
}

#[test]
fn scenario_four_elements_sorts() {
    let mut bars = elems(&[5, 3, 8, 1]);
    let trace = merge_sort_traced(&mut bars, Pacing::zero());
    assert_eq!(values_of(&bars), vec![1, 3, 5, 8]);

    // At least four overwrites, and the final overwrite per index carries
    // that index's final sorted value, each index written at least once.
    let mut overwrites = 0;
    let mut last_write: [Option<Element>; 4] = [None, None, None, None];
    for t in &trace {
        if let Operation::Overwrite(i, e) = t.op {
            overwrites += 1;
            assert!(i < 4);
            last_write[i] = Some(e);
        }
    }
    assert!(overwrites >= 4);
    for i in 0..4 {
        let e = last_write[i].expect("every index receives a final write");
        assert_eq!(e.value, bars[i].value);
    }

    // The trace ends with exactly the final pass: four neutral marks, one
    // per index, in index order.
    assert!(trace.len() >= 4);
    let tail = &trace[trace.len() - 4..];
    for i in 0..4 {
        assert!(matches!(tail[i].op, Operation::SetPhase(j, Phase::Neutral) if j == i));
    }
}

#[test]
fn scenario_empty_input_emits_nothing() {
    let mut bars = elems(&[]);
    let trace = merge_sort_traced(&mut bars, Pacing::standard());
    assert!(bars.is_empty());
    assert!(trace.is_empty());
}

#[test]
fn scenario_singleton_emits_one_neutral_mark() {
    let mut bars = elems(&[7]);
    let trace = merge_sort_traced(&mut bars, Pacing::standard());
    assert_eq!(values_of(&bars), vec![7]);
    assert_eq!(trace.len(), 1);
    assert!(matches!(trace[0].op, Operation::SetPhase(0, Phase::Neutral)));
}

#[test]
fn scenario_equal_values_keep_their_order() {
    // The two equal values carry distinct phase tags so their identities
    // stay observable; the engine never reads or rewrites them in its own
    // array.
    let mut bars = vec![
        Element { value: 2, phase: Phase::LeftMergeCandidate },
        Element { value: 2, phase: Phase::RightMergeCandidate },
        Element { value: 1, phase: Phase::Neutral },
    ];
    merge_sort_traced(&mut bars, Pacing::zero());
    assert_eq!(values_of(&bars), vec![1, 2, 2]);
    assert_eq!(bars[1].phase, Phase::LeftMergeCandidate);
    assert_eq!(bars[2].phase, Phase::RightMergeCandidate);
}

#[test]
fn determinism_two_copies_agree() {
    let input = [9, 1, 4, 4, 7, 0, 3, 8, 2, 6, 5, 5];
    let mut one = elems(&input);
    let mut two = elems(&input);
    let trace_one = merge_sort_traced(&mut one, Pacing::standard());
    let trace_two = merge_sort_traced(&mut two, Pacing::standard());
    assert_eq!(one, two);
    assert_eq!(trace_one, trace_two);
}

#[test]
fn sortedness_and_permutation_on_larger_input() {
    let input = [13, 2, 2, 40, 0, 99, 17, 5, 5, 5, 81, 3, 64, 28];
    let mut bars = elems(&input);
    merge_sort_traced(&mut bars, Pacing::zero());
    for w in bars.windows(2) {
        assert!(w[0].value <= w[1].value);
    }
    let mut expected = input.to_vec();
    expected.sort();
    assert_eq!(values_of(&bars), expected);
}

#[test]
fn phase_termination_tail_is_the_final_pass() {
    let input = [6, 2, 9, 2, 1];
    let mut bars = elems(&input);
    let trace = merge_sort_traced(&mut bars, Pacing::standard());
    let phase_events: Vec<Operation> = trace
        .iter()
        .map(|t| t.op)
        .filter(|op| matches!(op, Operation::SetPhase(_, _)))
        .collect();
    assert!(phase_events.len() >= input.len());
    let tail = &phase_events[phase_events.len() - input.len()..];
    for i in 0..input.len() {
        assert!(matches!(tail[i], Operation::SetPhase(j, Phase::Neutral) if j == i));
    }
}

fn count_writes_and_marks(trace: &[TimedOp]) -> (usize, usize) {
    let mut writes = 0;
    let mut marks = 0;
    for t in trace {
        match t.op {
            Operation::Overwrite(_, _) => writes += 1,
            Operation::SetPhase(_, _) => marks += 1,
            Operation::Compare(_, _) => {},
        }
    }
    (writes, marks)
}

#[test]
fn already_sorted_input_takes_the_full_code_path() {
    // No early exit for sorted input: every divide, placement and reset
    // still happens, so the write and mark counts are length-determined.
    // Only the comparison count is data-dependent, since a drained run
    // records no comparisons.
    let mut sorted_in = elems(&[1, 2, 3, 4, 5, 6]);
    let mut reversed = elems(&[6, 5, 4, 3, 2, 1]);
    let t1 = merge_sort_traced(&mut sorted_in, Pacing::zero());
    let t2 = merge_sort_traced(&mut reversed, Pacing::zero());
    assert_eq!(count_writes_and_marks(&t1), count_writes_and_marks(&t2));
    assert!(!t1.is_empty());
}

#[test]
fn standard_pacing_pauses_appear_in_the_trace() {
    let p = Pacing::standard();
    assert_eq!(p.divide_millis, 100);
    assert_eq!(p.merge_mark_millis, 100);
    assert_eq!(p.compare_millis, 80);
    assert_eq!(p.place_millis, 60);
    assert_eq!(p.drain_millis, 40);
    assert_eq!(p.reset_millis, 50);

    let mut bars = elems(&[3, 1]);
    let trace = merge_sort_traced(&mut bars, p);
    // Divide marks for both indices, the second carrying the divide pause.
    assert!(matches!(trace[0], TimedOp { op: Operation::SetPhase(0, Phase::Dividing), pause_after_millis: 0 }));
    assert!(matches!(trace[1], TimedOp { op: Operation::SetPhase(1, Phase::Dividing), pause_after_millis: 100 }));
    // Candidate marks, then the one comparison with its pause.
    assert!(matches!(trace[2], TimedOp { op: Operation::SetPhase(0, Phase::LeftMergeCandidate), pause_after_millis: 0 }));
    assert!(matches!(trace[3], TimedOp { op: Operation::SetPhase(1, Phase::RightMergeCandidate), pause_after_millis: 100 }));
    assert!(matches!(trace[4], TimedOp { op: Operation::Compare(0, 1), pause_after_millis: 80 }));
}

#[test]
fn channel_receives_every_operation_in_order() {
    let (tx, rx) = std::sync::mpsc::channel();
    let mut bars = elems(&[4, 1, 3, 2]);
    let report = merge_sort_visual(&mut bars, &tx);
    drop(tx);
    assert!(report.all_delivered);
    assert_eq!(values_of(&bars), vec![1, 2, 3, 4]);
    let received: Vec<Operation> = rx.iter().collect();
    let recorded: Vec<Operation> = report.trace.iter().map(|t| t.op).collect();
    assert_eq!(received, recorded);
    assert!(!received.is_empty());
}

#[test]
fn dropped_receiver_skips_delivery_but_not_the_sort() {
    let (tx, rx) = std::sync::mpsc::channel::<Operation>();
    drop(rx);
    let mut bars = elems(&[2, 1]);
    let report = merge_sort_visual(&mut bars, &tx);
    assert!(!report.all_delivered);
    assert_eq!(values_of(&bars), vec![1, 2]);
    assert!(!report.trace.is_empty());
}

#[test]
fn run_without_a_sender_still_records_everything() {
    let mut with_tx = elems(&[3, 2, 1]);
    let mut without_tx = elems(&[3, 2, 1]);
    let (tx, _rx) = std::sync::mpsc::channel();
    let report = run(&mut with_tx, Some(&tx), Pacing::zero());
    let silent = run(&mut without_tx, None, Pacing::zero());
    assert_eq!(report.trace, silent.trace);
    assert_eq!(with_tx, without_tx);
    assert!(silent.all_delivered);
}
