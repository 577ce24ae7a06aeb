use austeur_core::analyzer::analyze;
use austeur_core::analyzer::HeadingRecord;
use austeur_core::reconciler::ChangeOp;
use austeur_core::reconciler::Reconciler;

fn record(level: usize, text: &str, source_offset: usize) -> HeadingRecord {
    HeadingRecord { level, text: text.to_string(), source_offset }
}

#[test]
fn reconcile_first_pass_inserts() {
    let mut rec = Reconciler::new();
    let (entries, ops) = rec.reconcile(&vec![record(1, "A", 0)]);
    assert_eq!(entries.len(), 1);
    assert_eq!(entries[0].slot_id, 0);
    assert_eq!(entries[0].record.text, "A");
    assert_eq!(ops.len(), 1);
    match &ops[0] {
        ChangeOp::Insert { position, entry } => {
            assert_eq!(*position, 0);
            assert_eq!(entry.slot_id, 0);
            assert_eq!(entry.record.text, "A");
        }
        _ => panic!("expected an insert"),
    }
}

#[test]
fn reconcile_keeps_slot_for_unchanged_entry() {
    let mut rec = Reconciler::new();
    rec.reconcile(&vec![record(1, "A", 0)]);
    let (entries, ops) = rec.reconcile(&vec![record(1, "A", 0), record(1, "B", 8)]);
    assert_eq!(entries.len(), 2);
    assert_eq!(entries[0].slot_id, 0);
    assert_eq!(entries[0].record.text, "A");
    assert_eq!(entries[1].slot_id, 1);
    assert_eq!(entries[1].record.text, "B");
    assert_eq!(ops.len(), 1);
    match &ops[0] {
        ChangeOp::Insert { position, entry } => {
            assert_eq!(*position, 1);
            assert_eq!(entry.slot_id, 1);
        }
        _ => panic!("expected an insert"),
    }
}

#[test]
fn reconcile_empty_removes_all() {
    let mut rec = Reconciler::new();
    rec.reconcile(&vec![record(1, "A", 0), record(2, "B", 6)]);
    let (entries, ops) = rec.reconcile(&vec![]);
    assert_eq!(entries.len(), 0);
    assert_eq!(rec.current_state().len(), 0);
    assert_eq!(ops.len(), 2);
    match &ops[0] {
        ChangeOp::Remove { slot_id } => assert_eq!(*slot_id, 0),
        _ => panic!("expected a removal"),
    }
    match &ops[1] {
        ChangeOp::Remove { slot_id } => assert_eq!(*slot_id, 1),
        _ => panic!("expected a removal"),
    }
}

#[test]
fn reconcile_never_repeats_slot_ids() {
    let mut rec = Reconciler::new();
    let passes = vec![
        vec![record(1, "A", 0), record(2, "B", 5)],
        vec![record(2, "B", 0)],
        vec![record(1, "A", 0), record(2, "B", 5), record(3, "C", 10)],
        vec![],
        vec![record(1, "A", 0), record(1, "A", 4)],
    ];
    for pass in &passes {
        rec.reconcile(pass);
        let state = rec.current_state();
        for i in 0..state.len() {
            for j in 0..state.len() {
                if i != j {
                    assert_ne!(state[i].slot_id, state[j].slot_id);
                }
            }
        }
    }
}

#[test]
fn reconcile_reports_update_when_offset_moves() {
    let mut rec = Reconciler::new();
    rec.reconcile(&vec![record(1, "A", 0)]);
    let (entries, ops) = rec.reconcile(&vec![record(1, "A", 7)]);
    assert_eq!(entries.len(), 1);
    assert_eq!(entries[0].slot_id, 0);
    assert_eq!(entries[0].record.source_offset, 7);
    assert_eq!(ops.len(), 1);
    match &ops[0] {
        ChangeOp::Update { slot_id, record } => {
            assert_eq!(*slot_id, 0);
            assert_eq!(record.source_offset, 7);
        }
        _ => panic!("expected an update"),
    }
}

#[test]
fn reconcile_replaces_entry_whose_pair_changed() {
    let mut rec = Reconciler::new();
    rec.reconcile(&vec![record(1, "A", 0)]);
    let (entries, ops) = rec.reconcile(&vec![record(2, "A", 0)]);
    assert_eq!(entries.len(), 1);
    assert_eq!(entries[0].slot_id, 1);
    assert_eq!(entries[0].record.level, 2);
    assert_eq!(ops.len(), 2);
    match &ops[0] {
        ChangeOp::Remove { slot_id } => assert_eq!(*slot_id, 0),
        _ => panic!("expected a removal"),
    }
    match &ops[1] {
        ChangeOp::Insert { position, entry } => {
            assert_eq!(*position, 0);
            assert_eq!(entry.slot_id, 1);
        }
        _ => panic!("expected an insert"),
    }
}

#[test]
fn reconcile_identical_pass_is_a_noop() {
    let mut rec = Reconciler::new();
    let headings = vec![record(1, "A", 0), record(2, "B", 6)];
    rec.reconcile(&headings);
    let (entries, ops) = rec.reconcile(&headings);
    assert_eq!(ops.len(), 0);
    assert_eq!(entries.len(), 2);
    assert_eq!(entries[0].slot_id, 0);
    assert_eq!(entries[1].slot_id, 1);
}

#[test]
fn reconcile_preserves_analyzer_order() {
    let analysis = analyze("# one\nwords\n## two\n### three");
    let mut rec = Reconciler::new();
    let (entries, _ops) = rec.reconcile(&analysis.headings);
    assert_eq!(entries.len(), analysis.headings.len());
    for i in 0..entries.len() {
        assert_eq!(entries[i].record.level, analysis.headings[i].level);
        assert_eq!(entries[i].record.text, analysis.headings[i].text);
    }
}

#[test]
fn pipeline_keeps_slot_across_an_edit() {
    let mut rec = Reconciler::new();
    let first = analyze("# Title\nsome text");
    rec.reconcile(&first.headings);
    let second = analyze("# Title\nsome text grew\n## Sub");
    let (entries, _ops) = rec.reconcile(&second.headings);
    assert_eq!(entries.len(), 2);
    assert_eq!(entries[0].record.text, "Title");
    assert_eq!(entries[0].slot_id, 0);
    assert_eq!(entries[1].record.text, "Sub");
    assert_eq!(entries[1].slot_id, 1);
}

#[test]
fn can_accept_holds_for_small_passes() {
    let rec = Reconciler::new();
    assert!(rec.can_accept(0));
    assert!(rec.can_accept(1000));
}
