use ic_replay::backup::BackupSpool;
use ic_replay::backup::SpoolEntry;
use ic_replay::player::Player;
use ic_replay::pool::CertificationPool;
use ic_replay::pool::ConsensusPool;
use ic_replay::registry::LocalStore;
use ic_replay::registry::QueryHandler;
use ic_replay::registry::RegistryClient;
use ic_replay::routing::MessageRouting;
use ic_replay::state_manager::StateManager;
use ic_replay::types::Batch;
use ic_replay::types::BlessedReplicaVersions;
use ic_replay::types::CatchUpPackage;
use ic_replay::types::Certification;
use ic_replay::types::Block;
use ic_replay::types::IngressMessage;
use ic_replay::types::IngressStatus;
use ic_replay::types::ReplayError;
use ic_replay::types::SubnetRecord;

fn digest(b: u8) -> Vec<u8> {
    vec![b, 0x01]
}

fn block(height: u64, registry_version: u64) -> Block {
    Block {
        height,
        registry_version,
        replica_version: 5,
        time: 1_000 + height,
        seed: vec![height as u8],
        ingress: Vec::new(),
    }
}

fn state_manager_for(latest: u64, planned: Vec<Option<Vec<u8>>>) -> StateManager {
    StateManager {
        low: latest,
        latest,
        digests: vec![Some(digest(latest as u8))],
        plan: planned,
        certifications: Vec::new(),
    }
}

fn routing_at(expected: u64) -> MessageRouting {
    MessageRouting {
        expected,
        queue: None,
        delivered_heights: Vec::new(),
        statuses: Vec::new(),
        outcomes: Vec::new(),
    }
}

fn quiet_query_handler() -> QueryHandler {
    QueryHandler {
        fault: None,
        records: Vec::new(),
        subnet_record: Some(SubnetRecord { replica_version_id: 5 }),
        blessed: Some(BlessedReplicaVersions { blessed_version_ids: vec![5] }),
    }
}

fn client(latest_version: u64) -> RegistryClient {
    RegistryClient { latest_version, replica_versions: Vec::new() }
}

/// A live player: genesis CUP at height 0, finalized blocks 1..=3, state
/// computed at height 0, execution plan for heights 1..=4.
fn live_player() -> Player {
    let pool = ConsensusPool {
        blocks: vec![block(0, 1), block(1, 1), block(2, 1), block(3, 1)],
        cup: CatchUpPackage {
            height: 0,
            state_hash: digest(0),
            registry_version: 1,
            signature_ok: false,
        },
        purged_below: 0,
    };
    let certs = vec![
        Certification { height: 1, digest: digest(1) },
        Certification { height: 2, digest: digest(2) },
        Certification { height: 3, digest: digest(3) },
    ];
    Player {
        state_manager: state_manager_for(
            0,
            vec![Some(digest(1)), Some(digest(2)), Some(digest(3)), Some(digest(4))],
        ),
        message_routing: routing_at(1),
        consensus_pool: Some(pool),
        certification_pool: Some(CertificationPool { certs }),
        registry: client(1),
        local_store: None,
        query_handler: quiet_query_handler(),
        backup_spool: None,
        subnet_id: 9,
        replica_version: 5,
        now: 7_000,
        replay_target_height: None,
    }
}

#[test]
fn replay_delivers_all_finalized_batches_in_order() {
    let mut player = live_player();
    let result = player.replay(Vec::new()).unwrap();
    assert_eq!(player.delivered_batch_heights(), vec![1, 2, 3]);
    assert_eq!(result.0, 3);
    assert_eq!(result.1, hex::encode(digest(3)));
    assert_eq!(result.1, "0301");
}

#[test]
fn replay_clamps_to_target_height() {
    let mut player = live_player().with_replay_target_height(Some(2));
    let result = player.replay(Vec::new()).unwrap();
    assert_eq!(player.delivered_batch_heights(), vec![1, 2]);
    assert_eq!(result.0, 2);
    assert_eq!(result.1, hex::encode(digest(2)));
}

#[test]
fn replay_with_oversized_target_stops_at_finalized_height() {
    let mut player = live_player().with_replay_target_height(Some(50));
    let result = player.replay(Vec::new()).unwrap();
    assert_eq!(player.delivered_batch_heights(), vec![1, 2, 3]);
    assert_eq!(result.0, 3);
}

#[test]
fn replay_prunes_states_below_last_delivered_height() {
    let mut player = live_player();
    player.replay(Vec::new()).unwrap();
    assert_eq!(player.lowest_retained_state_height(), 3);
}

#[test]
fn replay_redelivers_certifications_in_ascending_order() {
    let mut player = live_player();
    player.replay(Vec::new()).unwrap();
    let heights: Vec<u64> =
        player.state_manager.certifications.iter().map(|c| c.height).collect();
    assert_eq!(heights, vec![1, 2, 3]);
}

#[test]
fn replay_executes_extra_messages_beyond_finalized_height() {
    let mut player = live_player();
    player.message_routing.outcomes =
        vec![(7, IngressStatus::CompletedReply(vec![0xaa]))];
    let extra = vec![IngressMessage { id: 7, payload: vec![1, 2, 3] }];
    let result = player.replay(extra).unwrap();
    assert_eq!(player.delivered_batch_heights(), vec![1, 2, 3, 4]);
    assert_eq!(result.0, 4);
    assert_eq!(result.1, hex::encode(digest(4)));
    assert_eq!(player.lowest_retained_state_height(), 4);
}

#[test]
fn extra_batch_context_is_derived_from_the_finalized_tip() {
    let mut player = live_player();
    player.message_routing.outcomes =
        vec![(7, IngressStatus::CompletedReply(Vec::new()))];
    let extra = vec![IngressMessage { id: 7, payload: Vec::new() }];
    let (context_time, delivery) = player.deliver_extra_batch(extra);
    // tip block time is 1_003; the extra batch moves one nanosecond forward
    assert_eq!(context_time, 1_004);
    let (height, ids) = delivery.unwrap();
    assert_eq!(height, 1);
    assert_eq!(ids, vec![7]);
    let queued = player.message_routing.queue.as_ref().unwrap();
    assert_eq!(queued.registry_version, 1);
    assert!(queued.requires_full_state_hash);
    assert_eq!(queued.randomness, vec![3u8]);
}

#[test]
fn extra_batch_without_pool_falls_back_to_clock_and_zero_seed() {
    let mut player = live_player();
    player.consensus_pool = None;
    player.certification_pool = None;
    player.message_routing.outcomes =
        vec![(7, IngressStatus::CompletedReply(Vec::new()))];
    let extra = vec![IngressMessage { id: 7, payload: Vec::new() }];
    let (context_time, delivery) = player.deliver_extra_batch(extra);
    assert_eq!(context_time, 7_000);
    assert!(delivery.is_some());
    let queued = player.message_routing.queue.as_ref().unwrap();
    assert_eq!(queued.randomness, vec![0u8; 32]);
    assert_eq!(queued.registry_version, 1);
}

#[test]
fn rejected_extra_message_is_not_reported_completed() {
    let mut player = live_player();
    player.consensus_pool = None;
    player.certification_pool = None;
    player.message_routing.outcomes = vec![(7, IngressStatus::CompletedReject)];
    let extra = vec![IngressMessage { id: 7, payload: Vec::new() }];
    let (_, delivery) = player.deliver_extra_batch(extra);
    let (height, ids) = delivery.unwrap();
    player.wait_for_state(height);
    assert!(!player.extra_messages_completed(&ids));
}

#[test]
fn replied_extra_message_is_reported_completed() {
    let mut player = live_player();
    player.consensus_pool = None;
    player.certification_pool = None;
    player.message_routing.outcomes =
        vec![(7, IngressStatus::CompletedReply(vec![0x11]))];
    let extra = vec![IngressMessage { id: 7, payload: Vec::new() }];
    let (_, delivery) = player.deliver_extra_batch(extra);
    let (height, ids) = delivery.unwrap();
    player.wait_for_state(height);
    assert!(player.extra_messages_completed(&ids));
}

#[test]
fn verify_latest_cup_accepts_genesis_without_signature() {
    let player = live_player();
    // the package's signature would not pass, and is never looked at
    assert!(!player.consensus_pool.as_ref().unwrap().cup.signature_ok);
    assert!(player.verify_latest_cup().is_ok());
}

#[test]
fn verify_latest_cup_detects_state_divergence() {
    let mut player = live_player();
    player.consensus_pool.as_mut().unwrap().cup = CatchUpPackage {
        height: 0,
        state_hash: vec![0xde, 0xad],
        registry_version: 1,
        signature_ok: true,
    };
    // height 0 passes unconditionally even on a mismatch
    assert!(player.verify_latest_cup().is_ok());

    // a non-genesis package at the computed height must match
    let mut diverged = live_player();
    diverged.state_manager =
        StateManager { low: 2, latest: 2, digests: vec![Some(digest(2))], plan: vec![], certifications: Vec::new() };
    diverged.message_routing = routing_at(3);
    diverged.consensus_pool.as_mut().unwrap().cup = CatchUpPackage {
        height: 2,
        state_hash: vec![0xde, 0xad],
        registry_version: 1,
        signature_ok: true,
    };
    match diverged.verify_latest_cup() {
        Err(ReplayError::StateDivergence(h)) => assert_eq!(h, 2),
        other => panic!("expected divergence, got {:?}", other),
    }
}

#[test]
fn verify_latest_cup_accepts_matching_digest() {
    let mut player = live_player();
    player.state_manager =
        StateManager { low: 2, latest: 2, digests: vec![Some(digest(2))], plan: vec![], certifications: Vec::new() };
    player.message_routing = routing_at(3);
    player.consensus_pool.as_mut().unwrap().cup = CatchUpPackage {
        height: 2,
        state_hash: digest(2),
        registry_version: 1,
        signature_ok: true,
    };
    assert!(player.verify_latest_cup().is_ok());
}

#[test]
fn verify_latest_cup_skips_comparison_when_state_moved_past_package() {
    let mut player = live_player();
    player.state_manager =
        StateManager { low: 3, latest: 3, digests: vec![Some(digest(3))], plan: vec![], certifications: Vec::new() };
    player.message_routing = routing_at(4);
    // the package commits a digest that no longer exists locally
    player.consensus_pool.as_mut().unwrap().cup = CatchUpPackage {
        height: 2,
        state_hash: vec![0xde, 0xad],
        registry_version: 1,
        signature_ok: true,
    };
    assert!(player.verify_latest_cup().is_ok());
}

#[test]
fn verify_latest_cup_detects_upgrade() {
    let mut player = live_player();
    player.state_manager =
        StateManager { low: 2, latest: 2, digests: vec![Some(digest(2))], plan: vec![], certifications: Vec::new() };
    player.message_routing = routing_at(3);
    player.registry.replica_versions = vec![(1, 6)]; // a different build governs
    player.consensus_pool.as_mut().unwrap().cup = CatchUpPackage {
        height: 2,
        state_hash: digest(2),
        registry_version: 1,
        signature_ok: true,
    };
    match player.verify_latest_cup() {
        Err(ReplayError::UpgradeDetected((height, hash))) => {
            assert_eq!(height, 2);
            assert_eq!(hash, hex::encode(digest(2)));
        }
        other => panic!("expected upgrade, got {:?}", other),
    }
}

#[test]
fn replay_tolerates_detected_upgrade_but_restore_propagates_it() {
    // replay continues past an upgrade boundary detected at its start
    let mut player = live_player();
    player.state_manager = StateManager {
        low: 2,
        latest: 2,
        digests: vec![Some(digest(2))],
        plan: vec![Some(digest(3)), Some(digest(4))],
        certifications: Vec::new(),
    };
    player.message_routing = routing_at(3);
    player.registry.replica_versions = vec![(1, 6)]; // a different build governs
    player.consensus_pool.as_mut().unwrap().cup = CatchUpPackage {
        height: 2,
        state_hash: digest(2),
        registry_version: 1,
        signature_ok: true,
    };
    player.certification_pool.as_mut().unwrap().certs.clear();
    let replayed = player.replay(Vec::new());
    assert!(replayed.is_ok());
    assert_eq!(player.delivered_batch_heights(), vec![3]);

    // the same condition aborts a restore at its initial consistency check
    let spool = BackupSpool {
        entries: vec![
            SpoolEntry {
                block: block(2, 1),
                cup: Some(CatchUpPackage {
                    height: 2,
                    state_hash: digest(2),
                    registry_version: 1,
                    signature_ok: true,
                }),
                certification: None,
            },
            plain_entry(3, 1),
        ],
        cursor: 1,
    };
    let restoring_state = StateManager {
        low: 2,
        latest: 2,
        digests: vec![Some(digest(2))],
        plan: vec![Some(digest(3)), Some(digest(4))],
        certifications: Vec::new(),
    };
    let mut restoring = Player::new_for_backup(
        restoring_state,
        routing_at(3),
        RegistryClient { latest_version: 1, replica_versions: vec![(1, 6)] },
        Vec::new(),
        LocalStore { entries: vec![vec![]] },
        quiet_query_handler(),
        spool,
        9,
        5,
        2,
        7_000,
    );
    match restoring.restore(2) {
        Err(ReplayError::UpgradeDetected((height, hash))) => {
            assert_eq!(height, 2);
            assert_eq!(hash, hex::encode(digest(2)));
        }
        other => panic!("expected upgrade, got {:?}", other),
    }
}

#[test]
fn deliver_batch_refuses_wrong_height_and_backpressure() {
    let mut routing = routing_at(4);
    let ok = routing.deliver_batch(Batch {
        batch_number: 4,
        requires_full_state_hash: false,
        ingress: Vec::new(),
        randomness: Vec::new(),
        registry_version: 1,
        time: 0,
    });
    assert!(ok.is_ok());
    // the queue already holds a batch: backpressure
    let full = routing.deliver_batch(Batch {
        batch_number: 5,
        requires_full_state_hash: false,
        ingress: Vec::new(),
        randomness: Vec::new(),
        registry_version: 1,
        time: 0,
    });
    match full {
        Err((ic_replay::routing::MessageRoutingError::QueueIsFull, b)) => {
            assert_eq!(b.batch_number, 5)
        }
        other => panic!("expected backpressure, got {:?}", other),
    }
    // a height other than the expected one is ignored
    let ignored = routing.deliver_batch(Batch {
        batch_number: 4,
        requires_full_state_hash: false,
        ingress: Vec::new(),
        randomness: Vec::new(),
        registry_version: 1,
        time: 0,
    });
    assert!(matches!(
        ignored,
        Err((ic_replay::routing::MessageRoutingError::Ignored, _))
    ));
}

fn backup_spool(entries: Vec<SpoolEntry>) -> BackupSpool {
    BackupSpool { entries, cursor: 1 }
}

fn genesis_entry() -> SpoolEntry {
    SpoolEntry {
        block: block(0, 1),
        cup: Some(CatchUpPackage {
            height: 0,
            state_hash: digest(0),
            registry_version: 1,
            signature_ok: true,
        }),
        certification: None,
    }
}

fn plain_entry(height: u64, registry_version: u64) -> SpoolEntry {
    SpoolEntry { block: block(height, registry_version), cup: None, certification: None }
}

/// A backup player over an archive holding the genesis package and K
/// further finalized heights.
fn backup_player(entries: Vec<SpoolEntry>, plan: Vec<Option<Vec<u8>>>) -> Player {
    let spool = backup_spool(entries);
    Player::new_for_backup(
        state_manager_for(0, plan),
        routing_at(1),
        client(1),
        Vec::new(),
        LocalStore { entries: vec![vec![]] },
        quiet_query_handler(),
        spool,
        9,
        5,
        0,
        7_000,
    )
}

#[test]
fn restore_replays_the_whole_archive_to_its_last_height() {
    let entries = vec![genesis_entry(), plain_entry(1, 1), plain_entry(2, 1), plain_entry(3, 1)];
    let plan = vec![Some(digest(1)), Some(digest(2)), Some(digest(3)), Some(digest(4))];
    let mut player = backup_player(entries, plan);
    let result = player.restore(0).unwrap();
    assert_eq!(result.0, 3);
    assert_eq!(result.1, hex::encode(digest(3)));
    assert_eq!(player.delivered_batch_heights(), vec![1, 2, 3]);
    assert_eq!(player.backup_entries_remaining(), 0);
    // no state below the last delivered height is retained
    assert_eq!(player.lowest_retained_state_height(), 3);
}

#[test]
fn restore_stops_at_target_without_ingesting_further_artifacts() {
    let mut checkpoint_entry = plain_entry(2, 1);
    checkpoint_entry.cup = Some(CatchUpPackage {
        height: 2,
        state_hash: digest(2),
        registry_version: 1,
        signature_ok: true,
    });
    let entries = vec![
        genesis_entry(),
        plain_entry(1, 1),
        checkpoint_entry,
        plain_entry(3, 1),
        plain_entry(4, 1),
    ];
    let plan =
        vec![Some(digest(1)), Some(digest(2)), Some(digest(3)), Some(digest(4)), Some(digest(5))];
    let mut player = backup_player(entries, plan).with_replay_target_height(Some(2));
    let result = player.restore(0).unwrap();
    assert_eq!(result.0, 2);
    assert_eq!(player.delivered_batch_heights(), vec![1, 2]);
    assert_eq!(player.lowest_retained_state_height(), 2);
    // the archived heights past the checkpoint were never ingested
    assert_eq!(player.backup_entries_remaining(), 2);
}

#[test]
fn restore_verifies_and_prunes_at_a_checkpoint_boundary() {
    let mut checkpoint_entry = plain_entry(2, 1);
    checkpoint_entry.cup = Some(CatchUpPackage {
        height: 2,
        state_hash: digest(2),
        registry_version: 1,
        signature_ok: true,
    });
    let entries = vec![genesis_entry(), plain_entry(1, 1), checkpoint_entry, plain_entry(3, 1)];
    let plan = vec![Some(digest(1)), Some(digest(2)), Some(digest(3)), Some(digest(4))];
    let mut player = backup_player(entries, plan);
    let result = player.restore(0).unwrap();
    assert_eq!(result.0, 3);
    assert_eq!(player.delivered_batch_heights(), vec![1, 2, 3]);
    // states and artifacts below the confirmed checkpoint were purged
    assert!(player.lowest_retained_state_height() >= 2);
    assert_eq!(player.consensus_pool.as_ref().unwrap().purged_below, 2);
}

#[test]
fn restore_aborts_on_a_diverged_checkpoint() {
    let mut checkpoint_entry = plain_entry(2, 1);
    checkpoint_entry.cup = Some(CatchUpPackage {
        height: 2,
        state_hash: vec![0xde, 0xad],
        registry_version: 1,
        signature_ok: true,
    });
    let entries = vec![genesis_entry(), plain_entry(1, 1), checkpoint_entry, plain_entry(3, 1)];
    let plan = vec![Some(digest(1)), Some(digest(2)), Some(digest(3)), Some(digest(4))];
    let mut player = backup_player(entries, plan);
    match player.restore(0) {
        Err(ReplayError::StateDivergence(h)) => assert_eq!(h, 2),
        other => panic!("expected divergence, got {:?}", other),
    }
}

#[test]
fn restore_catches_up_the_registry_across_a_version_gap() {
    let entries = vec![genesis_entry(), plain_entry(1, 2), plain_entry(2, 2)];
    let plan = vec![Some(digest(1)), Some(digest(2)), Some(digest(3))];
    let mut player = backup_player(entries, plan);
    player.query_handler.records = vec![ic_replay::types::RegistryRecord {
        version: 2,
        key: String::from("subnet_record"),
        value: Some(vec![0x01]),
    }];
    let result = player.restore(0).unwrap();
    assert_eq!(result.0, 2);
    assert_eq!(player.registry_local_store_version(), 2);
    assert_eq!(player.registry.latest_version, 2);
}

#[test]
fn restore_prunes_state_behind_a_certified_height() {
    let mut certified = plain_entry(1, 1);
    certified.certification = Some(Certification { height: 1, digest: digest(1) });
    let entries = vec![genesis_entry(), certified, plain_entry(2, 1)];
    let plan = vec![Some(digest(1)), Some(digest(2)), Some(digest(3))];
    let mut player = backup_player(entries, plan);
    let result = player.restore(0).unwrap();
    assert_eq!(result.0, 2);
    assert!(player.lowest_retained_state_height() >= 1);
}

#[test]
fn new_derives_replica_version_from_the_finalized_tip() {
    let source = live_player();
    let player = Player::new(
        state_manager_for(
            0,
            vec![Some(digest(1)), Some(digest(2)), Some(digest(3)), Some(digest(4))],
        ),
        routing_at(1),
        source.consensus_pool,
        Vec::new(),
        client(1),
        None,
        quiet_query_handler(),
        9,
        7_000,
    );
    assert_eq!(player.replica_version, 5);
    assert!(player.certification_pool.is_some());
}

#[test]
fn new_without_pool_runs_poolless() {
    let player = Player::new(
        state_manager_for(0, vec![Some(digest(1))]),
        routing_at(1),
        None,
        Vec::new(),
        client(1),
        None,
        quiet_query_handler(),
        9,
        7_000,
    );
    assert_eq!(player.replica_version, 0);
    assert!(player.certification_pool.is_none());
    assert!(player.consensus_pool.is_none());
}

#[test]
fn new_for_backup_at_genesis_bootstraps_the_local_store() {
    let spool = BackupSpool {
        entries: vec![genesis_entry(), plain_entry(1, 1)],
        cursor: 1,
    };
    let snapshot = vec![
        ic_replay::types::RegistryRecord {
            version: 1,
            key: String::from("subnet_list"),
            value: Some(vec![0x09]),
        },
        ic_replay::types::RegistryRecord {
            version: 1,
            key: String::from("replica_version"),
            value: Some(vec![0x05]),
        },
    ];
    let player = Player::new_for_backup(
        state_manager_for(0, vec![Some(digest(1)), Some(digest(2))]),
        routing_at(1),
        client(0),
        snapshot,
        LocalStore { entries: Vec::new() },
        quiet_query_handler(),
        spool,
        9,
        5,
        0,
        7_000,
    );
    assert_eq!(player.registry_local_store_version(), 1);
    assert_eq!(player.registry.latest_version, 1);
    let entry = player.registry_local_store_entry(1).unwrap();
    assert_eq!(entry.len(), 2);
    assert_eq!(entry[0].key, "subnet_list");
    assert_eq!(entry[1].key, "replica_version");
    let cup = player.get_highest_catch_up_package();
    assert_eq!(cup.height, 0);
    assert_eq!(cup.state_hash, digest(0));
}

#[test]
fn restore_of_an_exhausted_archive_returns_at_once() {
    let entries = vec![genesis_entry()];
    let spool = BackupSpool { entries, cursor: 1 };
    let mut player = Player::new_for_backup(
        state_manager_for(0, vec![Some(digest(1))]),
        routing_at(1),
        client(1),
        Vec::new(),
        LocalStore { entries: vec![vec![]] },
        quiet_query_handler(),
        spool,
        9,
        5,
        0,
        7_000,
    );
    let result = player.restore(0).unwrap();
    assert_eq!(result.0, 0);
    assert!(player.delivered_batch_heights().is_empty());
}

#[test]
fn an_empty_digest_encodes_to_the_empty_string() {
    let mut player = live_player();
    player.consensus_pool = None;
    player.certification_pool = None;
    player.state_manager = StateManager {
        low: 0,
        latest: 0,
        digests: vec![Some(Vec::new())],
        plan: vec![Some(digest(1))],
        certifications: Vec::new(),
    };
    let (height, hash) = player.get_latest_state_height_and_hash();
    assert_eq!(height, 0);
    assert_eq!(hash, "");
}
