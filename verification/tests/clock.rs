//! Points in time, and when a node counts as dead.
use chrono::Timelike;
use scheduler::dead_nodes::DeadNodeCleanup;
use scheduler::dialogue::Step;
use scheduler::model::{ClusterNode, JobId, NodeId, TrainingJobStatus};
use scheduler::protocol::Request;
use scheduler::time::{TimeSpan, Timestamp, MAX_SECS, MIN_SECS};

fn at(secs: i64, nanos: u32) -> Timestamp {
    Timestamp::new(secs, nanos).unwrap()
}

fn node(heartbeat: Timestamp) -> ClusterNode {
    ClusterNode {
        id: NodeId(1),
        heartbeat_timestamp: heartbeat,
        assigned_job_id: None,
        reported_job_id: None,
    }
}

#[test]
fn node_is_dead_once_more_than_ninety_seconds_have_passed() {
    let node = node(at(1_000, 500));
    assert!(!node.is_dead_at(&at(1_000, 500)));
    assert!(!node.is_dead_at(&at(1_089, 999_999_999)));
    assert!(!node.is_dead_at(&at(1_090, 500)));
    assert!(node.is_dead_at(&at(1_090, 501)));
    assert!(node.is_dead_at(&at(1_091, 0)));
    assert!(!node.is_dead_at(&at(0, 0)));
}

#[test]
fn elapsed_time_is_the_difference() {
    assert_eq!(at(10, 5).since(&at(7, 9)), TimeSpan { secs: 2, nanos: 999_999_996 });
    assert_eq!(at(7, 9).since(&at(10, 5)), TimeSpan { secs: -2, nanos: -999_999_996 });
    assert_eq!(at(-5, 0).since(&at(-7, 0)), TimeSpan { secs: 2, nanos: 0 });
    assert_eq!(
        at(MAX_SECS, 0).since(&at(MIN_SECS, 0)),
        TimeSpan { secs: MAX_SECS - MIN_SECS, nanos: 0 }
    );
}

#[test]
fn elapsed_time_counts_leap_seconds() {
    // Half a second into the leap second that follows second 59.
    let leap = at(59, 1_500_000_000);
    assert_eq!(at(60, 0).since(&leap), TimeSpan { secs: 0, nanos: 500_000_000 });
    assert_eq!(leap.since(&at(59, 0)), TimeSpan { secs: 1, nanos: 500_000_000 });
    assert_eq!(leap.since(&at(60, 0)), TimeSpan { secs: 0, nanos: -500_000_000 });
    assert_eq!(leap.since(&at(58, 0)), TimeSpan { secs: 2, nanos: 500_000_000 });
    // The next day at an earlier time of day.
    let next_day = at(86_400, 0);
    assert_eq!(next_day.since(&leap), TimeSpan { secs: 86_339, nanos: 500_000_000 });
}

#[test]
fn elapsed_time_follows_the_stated_formula() {
    let adjustment = |later: (i64, u32), earlier: (i64, u32)| -> i128 {
        let (l, e) = (later.0.rem_euclid(86_400), earlier.0.rem_euclid(86_400));
        if l > e && earlier.1 >= 1_000_000_000 {
            1
        } else if l < e && later.1 >= 1_000_000_000 {
            -1
        } else {
            0
        }
    };
    let mut moments = Vec::new();
    for secs in [-86_401, -61, -1, 0, 58, 59, 60, 119, 86_399, 86_400, 1_000_000_019, MAX_SECS] {
        for nanos in [0, 1, 999_999_999, 1_000_000_000, 1_999_999_999] {
            if Timestamp::new(secs, nanos).is_some() {
                moments.push((secs, nanos));
            }
        }
    }
    for &later in &moments {
        for &earlier in &moments {
            let span = at(later.0, later.1).since(&at(earlier.0, earlier.1));
            let total = span.secs as i128 * 1_000_000_000 + span.nanos as i128;
            let seconds = later.0 as i128 - earlier.0 as i128 + adjustment(later, earlier);
            let expected = seconds * 1_000_000_000 + later.1 as i128 - earlier.1 as i128;
            assert_eq!(total, expected);
        }
    }
}

#[test]
fn timestamps_are_those_of_the_calendar() {
    for secs in [MIN_SECS - 1, MIN_SECS, -1, 0, 59, 60, MAX_SECS, MAX_SECS + 1, i64::MIN, i64::MAX] {
        for nanos in [0, 999_999_999, 1_000_000_000, 1_999_999_999, 2_000_000_000, u32::MAX] {
            let expressible = chrono::DateTime::from_timestamp(secs, 0)
                .and_then(|second| second.naive_utc().with_nanosecond(nanos))
                .is_some();
            assert_eq!(Timestamp::new(secs, nanos).is_some(), expressible);
        }
    }
    for secs in [0, 59] {
        let timestamp = at(secs, 1_000_000_007);
        assert_eq!((timestamp.secs(), timestamp.nanos()), (secs, 1_000_000_007));
    }
}

#[test]
fn leap_seconds_may_follow_any_second() {
    let leap = chrono::DateTime::from_timestamp(0, 0).unwrap().with_nanosecond(1_500_000_000);
    let leap = leap.unwrap();
    assert_eq!((leap.timestamp(), leap.timestamp_subsec_nanos()), (0, 1_500_000_000));
    let minute = chrono::DateTime::from_timestamp(60, 0).unwrap();
    let expected = minute - leap;

    let span = at(60, 0).since(&at(0, 1_500_000_000));
    assert_eq!((span.secs, span.nanos), (expected.num_seconds(), expected.subsec_nanos()));
    assert_eq!(span, TimeSpan { secs: 59, nanos: 500_000_000 });

    let node = node(at(0, 1_500_000_000));
    assert!(!node.is_dead_at(&at(90, 500_000_000)));
    assert!(node.is_dead_at(&at(90, 500_000_001)));
}

#[test]
fn node_is_looked_at_when_the_clock_shows_a_time() {
    let listed = || {
        let mut busy = node(at(1_000, 0));
        busy.assigned_job_id = Some(JobId(7));
        vec![node(at(5_000, 0)), busy]
    };
    match DeadNodeCleanup::look_at(listed(), 1, at(1_090, 1)) {
        Ok(Step::Ask(request, _)) => assert_eq!(request, Request::ResetJobStatus(JobId(7))),
        _ => panic!("the node is dead"),
    }
    match DeadNodeCleanup::look_at(listed(), 1, at(1_090, 0)) {
        Err(back) => {
            assert_eq!(back.len(), 2);
            assert_eq!(back[1].assigned_job_id, Some(JobId(7)));
        }
        _ => panic!("the node is alive"),
    }
    assert!(DeadNodeCleanup::look_at(listed(), 0, at(1_090, 1)).is_err());
}

#[test]
fn dead_node_stays_dead() {
    let node = node(at(86_300, 500));
    let times = [(86_300, 500), (86_390, 500), (86_390, 501), (86_399, 999_999_999), (86_400, 0)];
    let dead: Vec<bool> = times.iter().map(|&(secs, nanos)| node.is_dead_at(&at(secs, nanos))).collect();
    assert_eq!(dead, vec![false, false, true, true, true]);
    assert!(node.is_dead_at(&at(1_000_000, 0)));
}

#[test]
fn heartbeat_in_a_leap_second_is_counted_until_midnight() {
    let node = node(at(86_309, 1_200_000_000));
    assert!(node.is_dead_at(&at(86_399, 900_000_000)));
    assert!(!node.is_dead_at(&at(86_400, 100_000_000)));
    assert!(!node.is_dead_at(&at(86_400, 200_000_000)));
    assert!(node.is_dead_at(&at(86_400, 200_000_001)));
    assert!(node.is_dead_at(&at(86_400, 900_000_000)));
}

#[test]
fn later_cleanup_gives_up_more() {
    let nodes: Vec<ClusterNode> = [1_050, 1_000, 2_000, 1_020]
        .iter()
        .enumerate()
        .map(|(i, &secs)| ClusterNode { id: NodeId(i as u128), ..node(at(secs, 0)) })
        .collect();
    let given_up = |now: Timestamp| -> Vec<NodeId> {
        let mut ids = Vec::new();
        for i in 0..nodes.len() {
            if let Ok(Step::Ask(request, _)) = DeadNodeCleanup::look_at(nodes.clone(), i, now) {
                assert_eq!(request, Request::DeleteClusterNode(nodes[i].id));
                ids.push(nodes[i].id);
            }
        }
        ids
    };
    assert_eq!(given_up(at(1_090, 0)), vec![]);
    assert_eq!(given_up(at(1_100, 0)), vec![NodeId(1)]);
    assert_eq!(given_up(at(1_120, 0)), vec![NodeId(1), NodeId(3)]);
    assert_eq!(given_up(at(1_150, 0)), vec![NodeId(0), NodeId(1), NodeId(3)]);
}

#[test]
fn now_is_what_the_clock_shows() {
    let before = chrono::Utc::now();
    let now = Timestamp::now();
    let after = chrono::Utc::now();
    let read = chrono::DateTime::from_timestamp(now.secs(), now.nanos()).unwrap();
    assert!(before <= read && read <= after);
}

#[test]
fn spans_compare_with_seconds() {
    assert!(TimeSpan { secs: 90, nanos: 1 }.exceeds_secs(90));
    assert!(!TimeSpan { secs: 90, nanos: 0 }.exceeds_secs(90));
    assert!(!TimeSpan { secs: -91, nanos: 0 }.exceeds_secs(90));
    assert!(TimeSpan { secs: i64::MAX, nanos: 1 }.exceeds_secs(i64::MAX));
    assert!(!TimeSpan { secs: i64::MIN, nanos: -1 }.exceeds_secs(i64::MIN));
}

#[test]
fn terminal_statuses_are_those_of_finished_jobs() {
    assert!(TrainingJobStatus::Succeeded.is_terminal());
    assert!(TrainingJobStatus::Failed.is_terminal());
    assert!(TrainingJobStatus::Cancelled.is_terminal());
    assert!(!TrainingJobStatus::Queued.is_terminal());
    assert!(!TrainingJobStatus::Starting.is_terminal());
    assert!(!TrainingJobStatus::Running.is_terminal());
}
