use ic_replay::player::Player;
use ic_replay::registry::LocalStore;
use ic_replay::registry::QueryHandler;
use ic_replay::registry::RegistryClient;
use ic_replay::registry::write_records_to_local_store;
use ic_replay::routing::MessageRouting;
use ic_replay::state_manager::StateManager;
use ic_replay::types::BlessedReplicaVersions;
use ic_replay::types::QueryError;
use ic_replay::types::RegistryRecord;
use ic_replay::types::SubnetRecord;

fn record(version: u64, key: &str, value: u8) -> RegistryRecord {
    RegistryRecord { version, key: String::from(key), value: Some(vec![value]) }
}

fn poolless_player(handler: QueryHandler, store: LocalStore, latest: u64) -> Player {
    Player {
        state_manager: StateManager {
            low: 0,
            latest: 0,
            digests: vec![Some(vec![0x00])],
            plan: vec![Some(vec![0x01])],
            certifications: Vec::new(),
        },
        message_routing: MessageRouting {
            expected: 1,
            queue: None,
            delivered_heights: Vec::new(),
            statuses: Vec::new(),
            outcomes: Vec::new(),
        },
        consensus_pool: None,
        certification_pool: None,
        registry: RegistryClient { latest_version: latest, replica_versions: Vec::new() },
        local_store: Some(store),
        query_handler: handler,
        backup_spool: None,
        subnet_id: 9,
        replica_version: 5,
        now: 7_000,
        replay_target_height: None,
    }
}

fn handler_with(records: Vec<RegistryRecord>) -> QueryHandler {
    QueryHandler {
        fault: None,
        records,
        subnet_record: Some(SubnetRecord { replica_version_id: 5 }),
        blessed: Some(BlessedReplicaVersions { blessed_version_ids: vec![5, 6] }),
    }
}

#[test]
fn update_groups_shuffled_deltas_into_sequential_entries() {
    // three distinct versions, records deliberately out of order
    let records = vec![
        record(3, "c", 0x33),
        record(1, "a1", 0x11),
        record(2, "b", 0x22),
        record(1, "a2", 0x12),
    ];
    let mut player = poolless_player(handler_with(records), LocalStore { entries: Vec::new() }, 0);
    player.update_registry_local_store();

    assert_eq!(player.registry_local_store_version(), 3);
    let v1 = player.registry_local_store_entry(1).unwrap();
    assert_eq!(v1.len(), 2);
    assert_eq!(v1[0].key, "a1");
    assert_eq!(v1[0].value, Some(vec![0x11]));
    assert_eq!(v1[1].key, "a2");
    let v2 = player.registry_local_store_entry(2).unwrap();
    assert_eq!(v2.len(), 1);
    assert_eq!(v2[0].key, "b");
    let v3 = player.registry_local_store_entry(3).unwrap();
    assert_eq!(v3.len(), 1);
    assert_eq!(v3[0].key, "c");
    assert!(player.registry_local_store_entry(4).is_none());
}

#[test]
fn update_fetches_only_versions_above_the_cached_one() {
    let records = vec![record(1, "old", 0x01), record(2, "new", 0x02)];
    let store = LocalStore { entries: vec![vec![]] }; // version 1 already stored
    let mut player = poolless_player(handler_with(records), store, 1);
    player.update_registry_local_store();
    assert_eq!(player.registry_local_store_version(), 2);
    let v2 = player.registry_local_store_entry(2).unwrap();
    assert_eq!(v2.len(), 1);
    assert_eq!(v2[0].key, "new");
}

#[test]
fn update_with_no_newer_deltas_leaves_the_store_unchanged() {
    let records = vec![record(1, "old", 0x01)];
    let store = LocalStore { entries: vec![vec![]] };
    let mut player = poolless_player(handler_with(records), store, 1);
    player.update_registry_local_store();
    assert_eq!(player.registry_local_store_version(), 1);
}

#[test]
fn write_records_renumbers_gapless_from_the_base_version() {
    let mut store = LocalStore { entries: Vec::new() };
    // versions 5 and 9 only: the changelog still has no gaps
    let records = vec![record(9, "nine", 0x09), record(5, "five", 0x05)];
    write_records_to_local_store(&mut store, 0, &records);
    assert_eq!(store.entries.len(), 2);
    assert_eq!(store.entries[0][0].key, "five");
    assert_eq!(store.entries[1][0].key, "nine");
}

#[test]
fn get_changes_since_filters_by_version() {
    let records = vec![record(1, "a", 0x01), record(3, "c", 0x03), record(2, "b", 0x02)];
    let player = poolless_player(handler_with(records), LocalStore { entries: Vec::new() }, 0);
    let since_one = player.get_changes_since(1, 8_000).unwrap();
    assert_eq!(since_one.len(), 2);
    assert_eq!(since_one[0].key, "c");
    assert_eq!(since_one[1].key, "b");
    let since_three = player.get_changes_since(3, 8_000).unwrap();
    assert!(since_three.is_empty());
}

#[test]
fn get_latest_registry_version_returns_the_maximum() {
    let records = vec![record(4, "d", 0x04), record(2, "b", 0x02)];
    let player = poolless_player(handler_with(records), LocalStore { entries: Vec::new() }, 0);
    assert_eq!(player.get_latest_registry_version(8_000).unwrap(), 4);
}

#[test]
fn queries_surface_rejections_and_failures() {
    let mut handler = handler_with(Vec::new());
    handler.fault = Some(QueryError::Rejected);
    let player = poolless_player(handler, LocalStore { entries: Vec::new() }, 0);
    assert_eq!(player.get_latest_registry_version(8_000), Err(QueryError::Rejected));
    assert_eq!(player.get_changes_since(0, 8_000).unwrap_err(), QueryError::Rejected);

    let mut handler = handler_with(Vec::new());
    handler.fault = Some(QueryError::Failed);
    let player = poolless_player(handler, LocalStore { entries: Vec::new() }, 0);
    assert_eq!(player.get_blessed_replica_versions(8_000).unwrap_err(), QueryError::Failed);
    assert_eq!(player.get_subnet_record(8_000).unwrap_err(), QueryError::Failed);
}

#[test]
fn well_known_directory_records_are_served() {
    let player =
        poolless_player(handler_with(Vec::new()), LocalStore { entries: Vec::new() }, 0);
    let blessed = player.get_blessed_replica_versions(8_000).unwrap();
    assert_eq!(blessed.blessed_version_ids, vec![5, 6]);
    let subnet = player.get_subnet_record(8_000).unwrap();
    assert_eq!(subnet.replica_version_id, 5);
}

#[test]
fn replay_without_pool_reports_the_current_state() {
    let mut player =
        poolless_player(handler_with(Vec::new()), LocalStore { entries: Vec::new() }, 0);
    let result = player.replay(Vec::new()).unwrap();
    assert_eq!(result.0, 0);
    assert_eq!(result.1, hex::encode(vec![0x00]));
    assert!(player.delivered_batch_heights().is_empty());
}
