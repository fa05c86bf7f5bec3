use mentisdb::registry_sync::{append_forces, PendingSync, AGENT_REGISTRY_FLUSH_THRESHOLD};
use mentisdb::writer::{GroupCommit, WriterCommand, WriterNext, FLUSH_THRESHOLD};

fn append(payload: &[u8], durable: bool) -> WriterCommand {
    WriterCommand::Append { payload: payload.to_vec(), durable }
}

#[test]
fn buffered_appends_are_written_at_the_threshold() {
    let mut w = GroupCommit::new();
    for i in 0..FLUSH_THRESHOLD - 1 {
        let step = w.step(append(&[i as u8], false));
        assert_eq!(step.next, WriterNext::Receive);
        assert!(step.bytes.is_empty());
    }
    let step = w.step(append(&[99], false));
    assert_eq!(step.next, WriterNext::Write);
    let mut expected: Vec<u8> = (0..FLUSH_THRESHOLD as u8 - 1).collect();
    expected.push(99);
    assert_eq!(step.bytes, expected);
    let done = w.written(true);
    assert_eq!(done.next, WriterNext::Receive);
    assert_eq!(done.answer_durable, 0);
    assert!(!done.answer_requester);
    assert!(w.buffer.is_empty());
    assert_eq!(w.dirty, 0);
}

#[test]
fn durable_appends_share_one_write() {
    let mut w = GroupCommit::new();
    assert_eq!(w.step(append(&[1, 2], true)).next, WriterNext::ReceiveUntilDeadline);
    assert_eq!(w.step(append(&[3], false)).next, WriterNext::ReceiveUntilDeadline);
    assert_eq!(w.step(append(&[4], true)).next, WriterNext::ReceiveUntilDeadline);
    let step = w.step(WriterCommand::WindowClosed);
    assert_eq!(step.next, WriterNext::Write);
    assert_eq!(step.bytes, vec![1, 2, 3, 4]);
    let done = w.written(true);
    assert_eq!(done.answer_durable, 2);
    assert!(done.ok);
    assert!(!done.failed);
    assert_eq!(done.next, WriterNext::Receive);
    assert_eq!(w.waiting, 0);
}

#[test]
fn a_flush_with_nothing_buffered_answers_at_once() {
    let mut w = GroupCommit::new();
    let step = w.step(WriterCommand::Flush);
    assert!(step.answer_requester);
    assert!(step.ok);
    assert_eq!(step.next, WriterNext::Receive);
}

#[test]
fn a_flush_during_a_batch_answers_batch_and_requester() {
    let mut w = GroupCommit::new();
    w.step(append(&[7], true));
    let step = w.step(WriterCommand::Flush);
    assert_eq!(step.next, WriterNext::Write);
    assert_eq!(step.bytes, vec![7]);
    let done = w.written(true);
    assert_eq!(done.answer_durable, 1);
    assert!(done.answer_requester);
    assert_eq!(done.next, WriterNext::Receive);
}

#[test]
fn a_failed_write_is_reported_and_retried_once_at_the_end() {
    let mut w = GroupCommit::new();
    w.step(append(&[5, 6], false));
    let step = w.step(WriterCommand::Shutdown);
    assert_eq!(step.next, WriterNext::Write);
    let failed = w.written(false);
    assert!(failed.failed);
    assert!(!failed.ok);
    assert!(failed.answer_requester);
    assert_eq!(failed.next, WriterNext::Write);
    assert_eq!(failed.bytes, vec![5, 6]);
    let last = w.written(true);
    assert_eq!(last.next, WriterNext::Stop);
    assert!(w.buffer.is_empty());
}

#[test]
fn a_lost_queue_writes_the_batch_and_stops() {
    let mut w = GroupCommit::new();
    w.step(append(&[8], true));
    let step = w.step(WriterCommand::Disconnected);
    assert_eq!(step.next, WriterNext::Write);
    let done = w.written(true);
    assert_eq!(done.answer_durable, 1);
    assert!(!done.answer_requester);
    assert_eq!(done.next, WriterNext::Stop);
    let idle = GroupCommit::new().step(WriterCommand::Disconnected);
    assert_eq!(idle.next, WriterNext::Stop);
}

#[test]
fn registry_rewrites_wait_for_the_threshold_unless_forced() {
    let mut sync = PendingSync::new();
    assert!(!sync.due(true, AGENT_REGISTRY_FLUSH_THRESHOLD));
    sync.mark(false);
    assert!(!sync.pending);
    for _ in 0..AGENT_REGISTRY_FLUSH_THRESHOLD - 1 {
        sync.mark(true);
    }
    assert!(!sync.due(false, AGENT_REGISTRY_FLUSH_THRESHOLD));
    assert!(sync.due(true, AGENT_REGISTRY_FLUSH_THRESHOLD));
    sync.mark(true);
    assert_eq!(sync.updates, 16);
    assert!(sync.due(false, AGENT_REGISTRY_FLUSH_THRESHOLD));
    sync.synced();
    assert_eq!(sync, PendingSync { pending: false, updates: 0 });
    assert_eq!(append_forces(false, 1, false), (true, true, true));
    assert_eq!(append_forces(false, 5, true), (true, false, true));
    assert_eq!(append_forces(true, 5, false), (true, true, false));
    assert_eq!(append_forces(false, 5, false), (false, false, false));
}
