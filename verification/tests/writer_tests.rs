use ferric::app::msg::Msg;
use ferric::domain::writer::{
    same_bytes, throughput_bps, VerifyAction, VerifyEvent, VerifyJob, WriteAction, WriteEvent,
    WriteJob, CHUNK_SIZE,
};
use ferric::domain::DevicePath;

fn new_write() -> WriteJob {
    WriteJob::new(DevicePath::from(String::from("/dev/sdz")))
}

fn drive(job: WriteJob, events: Vec<(WriteEvent, u64)>) -> (WriteJob, WriteAction, Vec<Msg>) {
    let mut job = job;
    let mut action = job.action();
    let mut all = Vec::new();
    for (event, at) in events {
        let (next, act, msgs) = job.step(event, at);
        job = next;
        action = act;
        all.extend(msgs);
    }
    (job, action, all)
}

#[test]
fn throughput_is_bytes_per_second() {
    assert_eq!(throughput_bps(1_000_000, 1_000_000), 1_000_000);
    assert_eq!(throughput_bps(4_194_304, 500_000), 8_388_608);
    assert_eq!(throughput_bps(10, 3_000_000), 3);
    assert_eq!(throughput_bps(0, 0), 0);
    assert_eq!(throughput_bps(5, 0), 5_000_000);
    assert_eq!(throughput_bps(5, 1), 5_000_000);
    assert_eq!(throughput_bps(u64::MAX, 1), u64::MAX);
    assert_eq!(throughput_bps(u64::MAX, 1_000_000), u64::MAX);
}

#[test]
fn write_job_walks_through_its_steps() {
    let job = new_write();
    assert_eq!(job.action(), WriteAction::Unmount);
    let (job, action, msgs) = job.step(WriteEvent::Unmounted, 0);
    assert_eq!(action, WriteAction::OpenSource);
    assert!(msgs.is_empty());
    let (job, action, msgs) = job.step(WriteEvent::SourceOpened { total: 10 }, 0);
    assert_eq!(action, WriteAction::OpenDevice);
    assert!(matches!(msgs[..], [Msg::WriteStarted { total: 10 }]));
    let (job, action, _) = job.step(WriteEvent::DeviceOpened, 0);
    assert_eq!(action, WriteAction::Read);
    let (job, action, msgs) = job.step(WriteEvent::ReadDone { n: 6 }, 0);
    assert_eq!(action, WriteAction::Write { from: 0, to: 6 });
    assert!(msgs.is_empty());
    let (job, action, msgs) = job.step(WriteEvent::Wrote { n: 4 }, 1_000_000);
    assert_eq!(action, WriteAction::Write { from: 4, to: 6 });
    assert!(msgs.is_empty());
    assert_eq!(job.written(), 4);
    let (job, action, msgs) = job.step(WriteEvent::Wrote { n: 2 }, 2_000_000);
    assert_eq!(action, WriteAction::Read);
    assert!(matches!(msgs[..], [Msg::WriteProgress { written: 6, total: 10, bps: 3 }]));
    let (job, _, _) = job.step(WriteEvent::ReadDone { n: 4 }, 2_000_000);
    let (job, action, msgs) = job.step(WriteEvent::Wrote { n: 4 }, 4_000_000);
    assert_eq!(action, WriteAction::Read);
    assert!(matches!(msgs[..], [Msg::WriteProgress { written: 10, total: 10, bps: 2 }]));
    let (job, action, _) = job.step(WriteEvent::ReadDone { n: 0 }, 0);
    assert_eq!(action, WriteAction::Flush);
    let (job, action, _) = job.step(WriteEvent::Flushed, 0);
    assert_eq!(action, WriteAction::Sync);
    let (job, action, _) = job.step(WriteEvent::Synced, 0);
    assert_eq!(action, WriteAction::RereadPartitions);
    assert!(!job.is_done());
    let (job, action, msgs) = job.step(WriteEvent::Reread, 0);
    assert_eq!(action, WriteAction::Finish);
    assert!(matches!(msgs[..], [Msg::WriteFinished(Ok(()))]));
    assert!(job.is_done());
    assert_eq!(job.written(), 10);
    assert_eq!(job.total(), 10);
    let (job, action, msgs) = job.step(WriteEvent::Reread, 0);
    assert_eq!(action, WriteAction::Finish);
    assert!(msgs.is_empty());
    assert!(job.is_done());
}

#[test]
fn write_progress_never_decreases_and_ends_at_the_size() {
    let mut events = vec![
        (WriteEvent::Unmounted, 0),
        (WriteEvent::SourceOpened { total: 1000 }, 0),
        (WriteEvent::DeviceOpened, 0),
    ];
    for k in 0..10u64 {
        events.push((WriteEvent::ReadDone { n: 100 }, k * 10));
        events.push((WriteEvent::Wrote { n: 30 }, k * 10 + 1));
        events.push((WriteEvent::Wrote { n: 1 }, k * 10 + 2));
        events.push((WriteEvent::Wrote { n: 69 }, k * 10 + 3));
    }
    events.push((WriteEvent::ReadDone { n: 0 }, 200));
    events.push((WriteEvent::Flushed, 200));
    events.push((WriteEvent::Synced, 200));
    events.push((WriteEvent::Reread, 200));
    let (job, action, msgs) = drive(new_write(), events);
    assert_eq!(action, WriteAction::Finish);
    assert!(job.is_done());
    let mut last = 0;
    let mut count = 0;
    for m in &msgs {
        if let Msg::WriteProgress { written, total, .. } = m {
            assert!(*written >= last);
            assert_eq!(*total, 1000);
            last = *written;
            count += 1;
        }
    }
    assert_eq!(count, 10);
    assert_eq!(last, 1000);
    assert!(matches!(msgs.last(), Some(Msg::WriteFinished(Ok(())))));
    assert_eq!(msgs.iter().filter(|m| matches!(m, Msg::WriteFinished(_))).count(), 1);
}

fn failure_of(events: Vec<(WriteEvent, u64)>) -> String {
    let (job, action, msgs) = drive(new_write(), events);
    assert!(job.is_done());
    assert_eq!(action, WriteAction::Finish);
    match msgs.last() {
        Some(Msg::WriteFinished(Err(e))) => e.clone(),
        _ => panic!("the job did not fail"),
    }
}

#[test]
fn write_failures_say_which_step_failed() {
    let opened = || {
        vec![
            (WriteEvent::Unmounted, 0),
            (WriteEvent::SourceOpened { total: 8 }, 0),
            (WriteEvent::DeviceOpened, 0),
        ]
    };
    assert_eq!(
        failure_of(vec![
            (WriteEvent::Unmounted, 0),
            (WriteEvent::SourceOpenFailed("No such file or directory (os error 2)".into()), 0)
        ]),
        "Failed to open ISO: No such file or directory (os error 2)"
    );
    assert_eq!(
        failure_of(vec![(WriteEvent::Unmounted, 0), (WriteEvent::SourceStatFailed("boom".into()), 0)]),
        "Failed to stat ISO: boom"
    );
    assert_eq!(
        failure_of(vec![
            (WriteEvent::Unmounted, 0),
            (WriteEvent::SourceOpened { total: 8 }, 0),
            (WriteEvent::DeviceOpenFailed("Permission denied (os error 13)".into()), 0)
        ]),
        "Failed to open device /dev/sdz: Permission denied (os error 13)"
    );
    let mut e = opened();
    e.push((WriteEvent::ReadFailed("bad sector".into()), 0));
    assert_eq!(failure_of(e), "Read error: bad sector");
    let mut e = opened();
    e.push((WriteEvent::ReadDone { n: 8 }, 0));
    e.push((WriteEvent::Wrote { n: 3 }, 0));
    e.push((WriteEvent::WriteFailed("No space left on device".into()), 0));
    assert_eq!(failure_of(e), "Write error: No space left on device");
    let mut e = opened();
    e.push((WriteEvent::ReadDone { n: 0 }, 0));
    e.push((WriteEvent::FlushFailed("eio".into()), 0));
    assert_eq!(failure_of(e), "Flush error: eio");
    let mut e = opened();
    e.push((WriteEvent::ReadDone { n: 0 }, 0));
    e.push((WriteEvent::Flushed, 0));
    e.push((WriteEvent::SyncFailed("eio".into()), 0));
    assert_eq!(failure_of(e), "sync_all error: eio");
}

#[test]
fn a_write_that_takes_nothing_ends_the_job() {
    let (job, action, msgs) = drive(
        new_write(),
        vec![
            (WriteEvent::Unmounted, 0),
            (WriteEvent::SourceOpened { total: 8 }, 0),
            (WriteEvent::DeviceOpened, 0),
            (WriteEvent::ReadDone { n: 8 }, 0),
            (WriteEvent::Wrote { n: 3 }, 1),
            (WriteEvent::Wrote { n: 0 }, 2),
        ],
    );
    assert!(job.is_done());
    assert_eq!(action, WriteAction::Finish);
    assert_eq!(job.written(), 3);
    assert_eq!(msgs.iter().filter(|m| matches!(m, Msg::WriteFinished(_))).count(), 1);
    match msgs.last() {
        Some(Msg::WriteFinished(Err(e))) => {
            assert_eq!(e, "Write error: failed to write whole buffer")
        }
        _ => panic!("the job did not fail"),
    }
    let (job, action, msgs) = job.step(WriteEvent::Wrote { n: 5 }, 3);
    assert!(job.is_done());
    assert_eq!(action, WriteAction::Finish);
    assert!(msgs.is_empty());

    let (job, _, msgs) = drive(
        new_write(),
        vec![
            (WriteEvent::Unmounted, 0),
            (WriteEvent::SourceOpened { total: 8 }, 0),
            (WriteEvent::DeviceOpened, 0),
            (WriteEvent::ReadDone { n: 8 }, 0),
            (WriteEvent::Wrote { n: 0 }, 1),
        ],
    );
    assert!(job.is_done());
    assert!(matches!(&msgs[..], [Msg::WriteStarted { .. }, Msg::WriteFinished(Err(_))]));
}

#[test]
fn write_job_ignores_events_it_does_not_wait_for() {
    let job = new_write();
    let (job, action, msgs) = job.step(WriteEvent::Flushed, 0);
    assert_eq!(action, WriteAction::Unmount);
    assert!(msgs.is_empty());
    let (job, action, msgs) = job.step(WriteEvent::WriteFailed("x".into()), 0);
    assert_eq!(action, WriteAction::Unmount);
    assert!(msgs.is_empty());
    assert!(!job.is_done());
}

#[test]
fn write_counts_at_most_what_was_asked() {
    let (job, action, msgs) = drive(
        new_write(),
        vec![
            (WriteEvent::Unmounted, 0),
            (WriteEvent::SourceOpened { total: 5 }, 0),
            (WriteEvent::DeviceOpened, 0),
            (WriteEvent::ReadDone { n: 5 }, 0),
            (WriteEvent::Wrote { n: 9 }, 1),
        ],
    );
    assert_eq!(action, WriteAction::Read);
    assert_eq!(job.written(), 5);
    assert!(matches!(msgs.last(), Some(Msg::WriteProgress { written: 5, total: 5, .. })));
}

fn verify_all(source: &[u8], device: &[u8], size: u64) -> Vec<Msg> {
    let job = VerifyJob::new(size);
    assert_eq!(job.action(), VerifyAction::OpenSource);
    let (job, action, msgs) = job.step(VerifyEvent::SourceOpened, 0);
    assert_eq!(action, VerifyAction::OpenDevice);
    assert!(msgs.is_empty());
    let (mut job, mut action, mut all) = job.step(VerifyEvent::DeviceOpened, 0);
    let mut at = 0usize;
    let mut clock = 0u64;
    while let VerifyAction::Read { len } = action {
        clock += 1_000_000;
        let (next, act, msgs) = job.step(
            VerifyEvent::ChunksRead { source: &source[at..at + len], device: &device[at..at + len] },
            clock,
        );
        at += len;
        job = next;
        action = act;
        all.extend(msgs);
    }
    assert!(job.is_done());
    all
}

#[test]
fn identical_image_and_device_verify() {
    let size = CHUNK_SIZE * 2 + 17;
    let data: Vec<u8> = (0..size).map(|i| (i % 251) as u8).collect();
    let msgs = verify_all(&data, &data, size as u64);
    assert_eq!(msgs.len(), 5);
    assert!(matches!(msgs[0], Msg::VerifyStarted { total } if total == size as u64));
    assert!(matches!(msgs[1], Msg::VerifyProgress { checked, .. } if checked == CHUNK_SIZE as u64));
    assert!(matches!(msgs[2], Msg::VerifyProgress { checked, .. } if checked == 2 * CHUNK_SIZE as u64));
    assert!(
        matches!(msgs[3], Msg::VerifyProgress { checked, total, bps } if checked == size as u64 && total == size as u64 && bps == size as u64 / 3)
    );
    assert!(matches!(msgs[4], Msg::VerifyFinished(Ok(()))));
}

#[test]
fn one_differing_byte_fails_verification_without_further_progress() {
    let size = CHUNK_SIZE * 2 + 17;
    let data: Vec<u8> = (0..size).map(|i| (i % 251) as u8).collect();
    let mut other = data.clone();
    other[CHUNK_SIZE + 5] ^= 1;
    let msgs = verify_all(&data, &other, size as u64);
    assert_eq!(msgs.len(), 3);
    assert!(matches!(msgs[0], Msg::VerifyStarted { .. }));
    assert!(matches!(msgs[1], Msg::VerifyProgress { checked, .. } if checked == CHUNK_SIZE as u64));
    match &msgs[2] {
        Msg::VerifyFinished(Err(e)) => assert_eq!(e, "Mismatch between ISO and device"),
        _ => panic!("expected a mismatch"),
    }
}

#[test]
fn verifying_nothing_succeeds_at_once() {
    let msgs = verify_all(&[], &[], 0);
    assert!(matches!(msgs[..], [Msg::VerifyStarted { total: 0 }, Msg::VerifyFinished(Ok(()))]));
}

#[test]
fn verify_failures_say_which_step_failed() {
    let (job, action, msgs) = VerifyJob::new(9).step(VerifyEvent::SourceOpenFailed("nope".into()), 0);
    assert!(job.is_done());
    assert_eq!(action, VerifyAction::Finish);
    assert!(matches!(&msgs[..], [Msg::VerifyFinished(Err(e))] if e == "Failed to open ISO for verify: nope"));

    let (job, _, _) = VerifyJob::new(9).step(VerifyEvent::SourceOpened, 0);
    let (_, _, msgs) = job.step(VerifyEvent::DeviceOpenFailed("denied".into()), 0);
    assert!(matches!(&msgs[..], [Msg::VerifyFinished(Err(e))] if e == "Failed to open device for verify: denied"));

    let (job, _, _) = VerifyJob::new(9).step(VerifyEvent::SourceOpened, 0);
    let (job, action, _) = job.step(VerifyEvent::DeviceOpened, 0);
    assert_eq!(action, VerifyAction::Read { len: 9 });
    let (_, _, msgs) = job.step(VerifyEvent::SourceReadFailed("failed to fill whole buffer".into()), 0);
    assert!(
        matches!(&msgs[..], [Msg::VerifyFinished(Err(e))] if e == "ISO read error during verify: failed to fill whole buffer")
    );

    let (job, _, _) = VerifyJob::new(9).step(VerifyEvent::SourceOpened, 0);
    let (job, _, _) = job.step(VerifyEvent::DeviceOpened, 0);
    let (job, _, msgs) = job.step(VerifyEvent::DeviceReadFailed("eio".into()), 0);
    assert!(matches!(&msgs[..], [Msg::VerifyFinished(Err(e))] if e == "Device read error during verify: eio"));
    assert_eq!(job.checked(), 0);
}

#[test]
fn verify_ignores_chunks_of_the_wrong_length() {
    let (job, _, _) = VerifyJob::new(9).step(VerifyEvent::SourceOpened, 0);
    let (job, _, _) = job.step(VerifyEvent::DeviceOpened, 0);
    let (job, action, msgs) =
        job.step(VerifyEvent::ChunksRead { source: &[1, 2, 3], device: &[1, 2, 3] }, 0);
    assert_eq!(action, VerifyAction::Read { len: 9 });
    assert!(msgs.is_empty());
    assert_eq!(job.checked(), 0);
}

#[test]
fn bytes_are_compared_one_by_one() {
    assert!(same_bytes(&[], &[]));
    assert!(same_bytes(&[1, 2, 3], &[1, 2, 3]));
    assert!(!same_bytes(&[1, 2, 3], &[1, 2, 4]));
    assert!(!same_bytes(&[1, 2, 3], &[1, 2]));
}
