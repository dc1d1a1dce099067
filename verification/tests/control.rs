use region_growth::buffer::{Color, PixelBuffer};
use region_growth::controller::{MainController, UpdateError, WORKERS_PER_GROUP};
use region_growth::priority::{PriorityError, RecordingPriorityController};
use region_growth::worker::WorkerStatus;

#[test]
fn fresh_controller_is_idle() {
    let c = MainController::new(3);
    assert_eq!(c.group_count(), 3);
    for k in 0..3usize {
        assert_eq!(c.group(k).status(), WorkerStatus::Idle);
        assert!(c.group(k).color().is_none());
        for w in 0..WORKERS_PER_GROUP {
            assert!(!c.group(k).worker(w).spawned());
            assert_eq!(c.group(k).worker(w).pid(), 0);
        }
    }
}

#[test]
fn start_stop_round_trip() {
    let mut c = MainController::new(3);
    assert!(c.start_all().is_ok());
    for k in 0..3usize {
        assert_eq!(c.group(k).status(), WorkerStatus::Running);
    }
    assert!(c.stop_all().is_ok());
    for k in 0..3usize {
        assert_eq!(c.group(k).status(), WorkerStatus::Idle);
    }
}

#[test]
fn start_stop_idempotent() {
    let mut c = MainController::new(2);
    assert!(c.stop_all().is_ok());
    assert!(c.stop_all().is_ok());
    assert_eq!(c.group(0).status(), WorkerStatus::Idle);
    assert!(c.start_all().is_ok());
    assert!(c.start_all().is_ok());
    assert_eq!(c.group(1).status(), WorkerStatus::Running);
}

#[test]
fn init_commits_color_and_seeds_one_cell() {
    let fill = Color(128, 0, 0, 255);
    let mut buf = PixelBuffer::new(10, 10, fill).unwrap();
    let mut c = MainController::new(1);
    c.init(&mut buf);

    let color = c.group(0).color().expect("init commits a growth color");
    assert_eq!(color.3, 255);
    assert_eq!(c.group(0).status(), WorkerStatus::Idle);

    if color != fill {
        let mut count = 0;
        for x in 0..10 {
            for y in 0..10 {
                if buf.cell_color(x, y) == color {
                    count += 1;
                }
            }
        }
        assert_eq!(count, 1, "exactly one seed cell carries the group's color");
    }
}

#[test]
fn init_seeds_every_group_in_order() {
    let fill = Color(128, 0, 0, 255);
    let mut buf = PixelBuffer::new(10, 10, fill).unwrap();
    let mut c = MainController::new(3);
    c.init(&mut buf);

    // each group planted one seed; seeds may land on the same cell or draw
    // the fill color, so at most one changed cell per group
    let mut changed = 0;
    for x in 0..10 {
        for y in 0..10 {
            if buf.cell_color(x, y) != fill {
                changed += 1;
            }
        }
    }
    assert!(changed <= 3);

    for k in 0..3usize {
        let color = c.group(k).color().expect("every group commits a color");
        assert_eq!(color.3, 255);
    }

    // the group seeded last is never painted over by a later one
    let last = c.group(2).color().unwrap();
    if last != fill {
        let mut found = false;
        for x in 0..10 {
            for y in 0..10 {
                if buf.cell_color(x, y) == last {
                    found = true;
                }
            }
        }
        assert!(found, "the last group's seed must survive init");
    }
}

#[test]
fn record_spawn_sets_thread_ids() {
    let mut c = MainController::new(2);
    for g in 0..2usize {
        for w in 0..WORKERS_PER_GROUP {
            c.record_spawn(g, w, (10 + g * WORKERS_PER_GROUP + w) as u32);
        }
    }
    assert!(c.group(0).worker(0).spawned());
    assert_eq!(c.group(0).worker(0).pid(), 10);
    assert_eq!(c.group(1).worker(3).pid(), 17);
}

#[test]
fn priorities_propagate_once_per_worker_in_group_order() {
    let mut c = MainController::new(2);
    for g in 0..2usize {
        for w in 0..WORKERS_PER_GROUP {
            c.record_spawn(g, w, (100 + 10 * g + w) as u32);
        }
    }
    let mut ctrl = RecordingPriorityController::new();
    let priorities = vec![5, 9];
    assert!(c.update_priorities(&mut ctrl, &priorities).is_ok());

    let calls = ctrl.calls();
    assert_eq!(calls.len(), 8);
    let requests: Vec<(u32, i32)> = calls.iter().map(|e| e.0).collect();
    assert_eq!(requests[0..4], [(100, 5), (101, 5), (102, 5), (103, 5)]);
    assert_eq!(requests[4..8], [(110, 9), (111, 9), (112, 9), (113, 9)]);
    // every request was granted
    assert!(calls.iter().all(|e| e.1.is_ok()));
}

#[test]
fn priorities_wrong_length_changes_nothing() {
    let c = MainController::new(2);
    let mut ctrl = RecordingPriorityController::new();
    let priorities = vec![1];
    let r = c.update_priorities(&mut ctrl, &priorities);
    assert_eq!(r, Err(UpdateError::WrongLength));
    assert!(ctrl.calls().is_empty());
}

#[test]
fn priority_failure_names_group_and_keeps_earlier_settings() {
    let mut c = MainController::new(2);
    for g in 0..2usize {
        for w in 0..WORKERS_PER_GROUP {
            c.record_spawn(g, w, (200 + 10 * g + w) as u32);
        }
    }
    // the platform starts refusing at the seventh request: group 1, worker 2
    let mut ctrl = RecordingPriorityController::denying_from(6, PriorityError::Denied);
    let priorities = vec![3, 4];
    let r = c.update_priorities(&mut ctrl, &priorities);
    assert_eq!(
        r,
        Err(UpdateError::GroupFailed { group: 1, error: PriorityError::Denied })
    );

    let calls = ctrl.calls();
    // group 0 fully applied before the failure, group 1 stopped at the refusal
    let requests: Vec<(u32, i32)> = calls.iter().map(|e| e.0).collect();
    assert_eq!(requests[0..4], [(200, 3), (201, 3), (202, 3), (203, 3)]);
    assert_eq!(requests[4..7], [(210, 4), (211, 4), (212, 4)]);
    assert_eq!(calls.len(), 7);
    // the first six requests were granted; the logged answer of the last is
    // the refusal that came back
    assert!(calls[0..6].iter().all(|e| e.1.is_ok()));
    assert_eq!(calls[6].1, Err(PriorityError::Denied));
}

#[test]
fn unsupported_platform_refuses_gracefully() {
    let c = MainController::new(1);
    let mut ctrl = RecordingPriorityController::denying_from(0, PriorityError::Unsupported);
    let priorities = vec![2];
    let r = c.update_priorities(&mut ctrl, &priorities);
    assert_eq!(
        r,
        Err(UpdateError::GroupFailed { group: 0, error: PriorityError::Unsupported })
    );
    // the attempt is still recorded with its answer, never silently dropped
    assert_eq!(ctrl.calls().len(), 1);
    assert_eq!(ctrl.calls()[0], ((0, 2), Err(PriorityError::Unsupported)));
}

#[test]
fn group_set_priority_stops_at_first_refusal() {
    let mut c = MainController::new(1);
    for w in 0..WORKERS_PER_GROUP {
        c.record_spawn(0, w, (50 + w) as u32);
    }
    let mut ctrl = RecordingPriorityController::denying_from(2, PriorityError::Denied);
    let r = c.group(0).set_priority(&mut ctrl, 7);
    assert_eq!(r, Err(PriorityError::Denied));
    assert_eq!(
        ctrl.calls()[..],
        [
            ((50, 7), Ok(())),
            ((51, 7), Ok(())),
            ((52, 7), Err(PriorityError::Denied)),
        ]
    );
}
