use bully_cluster::bully::{BullyElection, BullyMessage, ElectionStep, MonitorStep};

fn three_nodes() -> (BullyElection, BullyElection, BullyElection) {
    let mut n1 = BullyElection::new(1, "127.0.0.1:8001".to_string());
    let mut n2 = BullyElection::new(2, "127.0.0.1:8002".to_string());
    let mut n3 = BullyElection::new(3, "127.0.0.1:8003".to_string());
    n1.add_peer(2, "127.0.0.1:8002".to_string());
    n1.add_peer(3, "127.0.0.1:8003".to_string());
    n2.add_peer(1, "127.0.0.1:8001".to_string());
    n2.add_peer(3, "127.0.0.1:8003".to_string());
    n3.add_peer(1, "127.0.0.1:8001".to_string());
    n3.add_peer(2, "127.0.0.1:8002".to_string());
    (n1, n2, n3)
}

#[test]
fn new_node_has_no_leader() {
    let n = BullyElection::new(1, "127.0.0.1:8001".to_string());
    assert_eq!(n.get_leader(), None);
    assert!(!n.is_leader());
    assert!(n.leader_alive);
}

#[test]
fn highest_id_self_elects_without_probing() {
    // a node with no higher-id peer registered declares itself at once
    let mut n3 = BullyElection::new(3, "127.0.0.1:8003".to_string());
    n3.add_peer(1, "127.0.0.1:8001".to_string());
    n3.add_peer(2, "127.0.0.1:8002".to_string());
    match n3.begin_election() {
        ElectionStep::Lead { announce } => {
            let ids: Vec<u32> = announce.iter().map(|p| p.id).collect();
            assert_eq!(ids, vec![1, 2]);
        }
        ElectionStep::Probe { .. } => panic!("node 3 must not probe"),
    }
    assert!(n3.is_leader());
    assert_eq!(n3.get_leader(), Some(3));
    assert!(n3.leader_alive);
}

#[test]
fn lower_id_probes_higher_peers_only() {
    let (mut n1, _, _) = three_nodes();
    match n1.begin_election() {
        ElectionStep::Probe { targets } => {
            let ids: Vec<u32> = targets.iter().map(|p| p.id).collect();
            assert_eq!(ids, vec![2, 3]);
        }
        ElectionStep::Lead { .. } => panic!("node 1 must probe its higher peers"),
    }
    // probing changed nothing yet
    assert_eq!(n1.get_leader(), None);
}

#[test]
fn answered_probe_waits_for_coordinator() {
    let (mut n1, _, _) = three_nodes();
    match n1.begin_election() {
        ElectionStep::Probe { .. } => {}
        ElectionStep::Lead { .. } => panic!("node 1 must probe"),
    }
    let announce = n1.finish_election(true);
    assert!(announce.is_none());
    assert_eq!(n1.get_leader(), None);
}

#[test]
fn unanswered_probe_self_elects() {
    let (mut n1, _, _) = three_nodes();
    match n1.begin_election() {
        ElectionStep::Probe { .. } => {}
        ElectionStep::Lead { .. } => panic!("node 1 must probe"),
    }
    let announce = n1.finish_election(false).expect("must announce");
    let ids: Vec<u32> = announce.iter().map(|p| p.id).collect();
    assert_eq!(ids, vec![2, 3]);
    assert!(n1.is_leader());
    assert_eq!(n1.get_leader(), Some(1));
}

#[test]
fn election_reply_follows_bully_priority() {
    // a receiver replies Answer exactly when its id is above the challenger's
    let (_, mut n2, _) = three_nodes();
    let outcome = n2.handle_message(BullyMessage::Election { from_id: 1 });
    assert_eq!(
        outcome.reply,
        Some(BullyMessage::Answer { from_id: 2 })
    );
    assert!(outcome.start_election);

    let outcome = n2.handle_message(BullyMessage::Election { from_id: 3 });
    assert_eq!(outcome.reply, None);
    assert!(!outcome.start_election);

    let outcome = n2.handle_message(BullyMessage::Election { from_id: 2 });
    assert_eq!(outcome.reply, None);
    assert!(!outcome.start_election);
}

#[test]
fn heartbeat_always_acknowledged() {
    let (mut n1, _, _) = three_nodes();
    for from in [1u32, 2, 3, 99] {
        let outcome = n1.handle_message(BullyMessage::Heartbeat { from_id: from });
        assert_eq!(
            outcome.reply,
            Some(BullyMessage::HeartbeatAck { from_id: 1 })
        );
        assert!(!outcome.start_election);
    }
}

#[test]
fn answer_and_ack_are_informational() {
    let (mut n1, _, _) = three_nodes();
    let outcome = n1.handle_message(BullyMessage::Answer { from_id: 3 });
    assert_eq!(outcome.reply, None);
    assert!(!outcome.start_election);
    let outcome = n1.handle_message(BullyMessage::HeartbeatAck { from_id: 3 });
    assert_eq!(outcome.reply, None);
    assert!(!outcome.start_election);
    assert_eq!(n1.get_leader(), None);
}

#[test]
fn coordinator_is_applied_unconditionally() {
    let (mut n1, _, _) = three_nodes();
    let outcome = n1.handle_message(BullyMessage::Coordinator { leader_id: 3 });
    assert_eq!(outcome.reply, None);
    assert_eq!(n1.get_leader(), Some(3));
    // last writer wins, even a lower id
    n1.handle_message(BullyMessage::Coordinator { leader_id: 2 });
    assert_eq!(n1.get_leader(), Some(2));
}

#[test]
fn set_leader_is_idempotent() {
    let (mut n1, _, _) = three_nodes();
    n1.set_leader(7);
    let leader_once = n1.get_leader();
    let alive_once = n1.leader_alive;
    n1.set_leader(7);
    assert_eq!(n1.get_leader(), leader_once);
    assert_eq!(n1.leader_alive, alive_once);
    assert_eq!(n1.get_leader(), Some(7));
    assert!(n1.leader_alive);
}

#[test]
fn monitor_idles_without_leader_and_on_self() {
    let (mut n1, _, mut n3) = three_nodes();
    assert!(matches!(n1.monitor_step(), MonitorStep::Idle));
    n3.set_leader(3);
    assert!(matches!(n3.monitor_step(), MonitorStep::Idle));
}

#[test]
fn monitor_probes_registered_leader() {
    let (mut n1, _, _) = three_nodes();
    n1.set_leader(3);
    match n1.monitor_step() {
        MonitorStep::Probe { leader_id, address } => {
            assert_eq!(leader_id, 3);
            assert_eq!(address, "127.0.0.1:8003");
        }
        _ => panic!("node 1 must probe its leader"),
    }
}

#[test]
fn monitor_reports_unregistered_leader() {
    let (mut n1, _, _) = three_nodes();
    n1.set_leader(9);
    assert!(matches!(n1.monitor_step(), MonitorStep::MissingLeader));
}

#[test]
fn failed_heartbeat_triggers_election() {
    let (mut n1, _, _) = three_nodes();
    n1.set_leader(3);
    let needs = n1.record_heartbeat(false);
    assert!(needs);
    assert!(!n1.leader_alive);
    let needs = n1.record_heartbeat(true);
    assert!(!needs);
    assert!(n1.leader_alive);
}

#[test]
fn add_peer_overwrites_existing_entry() {
    let (mut n1, _, _) = three_nodes();
    n1.add_peer(3, "127.0.0.1:9003".to_string());
    let peers = n1.get_all_peers();
    assert_eq!(peers.len(), 2);
    assert_eq!(peers[1], (3, "127.0.0.1:9003".to_string()));
}

#[test]
fn clone_copies_election_state() {
    let (mut n1, _, _) = three_nodes();
    n1.set_leader(3);
    let copy = n1.clone();
    assert_eq!(copy.node_id, 1);
    assert_eq!(copy.get_leader(), Some(3));
    assert_eq!(copy.get_all_peers(), n1.get_all_peers());
}

#[test]
fn full_round_converges_then_survives_leader_loss() {
    // startup: every node runs its round with full connectivity
    let (mut n1, mut n2, mut n3) = three_nodes();

    // node 3 has no higher peer: it leads and announces
    let announce = match n3.begin_election() {
        ElectionStep::Lead { announce } => announce,
        ElectionStep::Probe { .. } => panic!("node 3 must lead"),
    };
    assert_eq!(announce.iter().map(|p| p.id).collect::<Vec<u32>>(), vec![1, 2]);

    // nodes 1 and 2 probed their higher peers, got answers, and wait
    assert!(matches!(n1.begin_election(), ElectionStep::Probe { .. }));
    assert!(n1.finish_election(true).is_none());
    assert!(matches!(n2.begin_election(), ElectionStep::Probe { .. }));
    assert!(n2.finish_election(true).is_none());

    // the coordinator broadcast reaches everyone
    n1.handle_message(BullyMessage::Coordinator { leader_id: 3 });
    n2.handle_message(BullyMessage::Coordinator { leader_id: 3 });

    assert!(n3.is_leader());
    assert!(!n1.is_leader());
    assert!(!n2.is_leader());
    assert_eq!(n1.get_leader(), Some(3));
    assert_eq!(n2.get_leader(), Some(3));

    // node 3 vanishes: the monitors' probes fail
    assert!(matches!(n1.monitor_step(), MonitorStep::Probe { leader_id: 3, .. }));
    assert!(matches!(n2.monitor_step(), MonitorStep::Probe { leader_id: 3, .. }));
    assert!(n1.record_heartbeat(false));
    assert!(n2.record_heartbeat(false));

    // node 2 probes node 3 only, in vain, and takes over
    match n2.begin_election() {
        ElectionStep::Probe { targets } => {
            assert_eq!(targets.iter().map(|p| p.id).collect::<Vec<u32>>(), vec![3]);
        }
        ElectionStep::Lead { .. } => panic!("node 2 must probe node 3"),
    }
    let announce = n2.finish_election(false).expect("node 2 must announce");
    assert_eq!(announce.iter().map(|p| p.id).collect::<Vec<u32>>(), vec![1, 3]);
    assert!(n2.is_leader());

    // node 1 ran its own round too: node 2 answered, so it waits, and the
    // coordinator broadcast settles it
    assert!(matches!(n1.begin_election(), ElectionStep::Probe { .. }));
    assert!(n1.finish_election(true).is_none());
    n1.handle_message(BullyMessage::Coordinator { leader_id: 2 });
    assert_eq!(n1.get_leader(), Some(2));
    assert!(!n1.is_leader());
}
