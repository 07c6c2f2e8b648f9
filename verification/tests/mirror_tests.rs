use sorthos::engine::merge_sort_traced;
use sorthos::integration::{
    get_monitor_dimensions, initialize_audio_integration, initialize_text_renderer,
    set_monitor_dimensions_web, HostContext,
};
use sorthos::mirror::{apply_operation, apply_trace};
use sorthos::model::{Element, Operation, Pacing, Phase};

fn elems(values: &[u64]) -> Vec<Element> {
    let mut out = Vec::new();
    for v in values {
        out.push(Element { value: *v, phase: Phase::Neutral });
    }
    out
}

#[test]
fn replaying_the_trace_reconstructs_the_sorted_sequence() {
    let input = [5, 3, 8, 1, 9, 9, 0, 2];
    let mut engine_side = elems(&input);
    let trace = merge_sort_traced(&mut engine_side, Pacing::standard());

    // The consumer starts from its own mirror of the original input and
    // applies every operation in arrival order.
    let mut consumer_mirror = elems(&input);
    apply_trace(&mut consumer_mirror, &trace);

    assert_eq!(consumer_mirror.len(), engine_side.len());
    for (m, e) in consumer_mirror.iter().zip(engine_side.iter()) {
        assert_eq!(m.value, e.value);
        assert_eq!(m.phase, Phase::Neutral);
    }
}

#[test]
fn apply_operation_follows_the_consumer_contract() {
    let mut mirror = elems(&[10, 20, 30]);

    // SetPhase changes only the presentation state.
    apply_operation(&mut mirror, &Operation::SetPhase(1, Phase::Dividing));
    assert_eq!(mirror[1].value, 20);
    assert_eq!(mirror[1].phase, Phase::Dividing);

    // Compare is a transient highlight: no state mutation at all.
    let before = mirror.clone();
    apply_operation(&mut mirror, &Operation::Compare(0, 2));
    assert_eq!(mirror, before);

    // Overwrite replaces the whole element with the snapshot.
    let snapshot = Element { value: 99, phase: Phase::PlacedFromLeft };
    apply_operation(&mut mirror, &Operation::Overwrite(2, snapshot));
    assert_eq!(mirror[2], snapshot);

    // An index beyond the mirror is ignored.
    apply_operation(&mut mirror, &Operation::Overwrite(7, snapshot));
    assert_eq!(mirror.len(), 3);
    assert_eq!(mirror[0].value, 10);
}

#[test]
fn host_context_starts_empty_and_records_what_the_host_sets() {
    let mut ctx = HostContext::new();
    assert_eq!(get_monitor_dimensions(&ctx), (None, None));
    assert!(!ctx.audio_ready);

    set_monitor_dimensions_web(&mut ctx, 1920, 1080);
    assert_eq!(get_monitor_dimensions(&ctx), (Some(1920), Some(1080)));

    initialize_audio_integration(&mut ctx);
    assert!(ctx.audio_ready);

    // The text renderer keeps no host state: the context is untouched.
    initialize_text_renderer(&mut ctx);
    assert!(ctx.audio_ready);
    assert_eq!(get_monitor_dimensions(&ctx), (Some(1920), Some(1080)));

    // Bringing an integration up twice is harmless.
    initialize_audio_integration(&mut ctx);
    assert!(ctx.audio_ready);
    assert_eq!(get_monitor_dimensions(&ctx), (Some(1920), Some(1080)));
}
