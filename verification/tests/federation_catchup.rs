use paracord::error::ApiError;
use paracord::routes::federation::{
    check_ingest_rate, federated_event_kind, ingest_rate_bucket, normalized_event_depth,
    other_event_name, servers_seen, FederatedEventKind,
};
use paracord::routes::catchup::{
    catchup_candidate_domains, catchup_mapping_origins, catchup_page_limit, catchup_room_ids,
    catchup_since_depth, is_own_server, newest_synced_depth, plan_catchup_mappings,
    sort_mappings, SpaceMappingRow,
};

fn row(space: &str, guild: i64) -> SpaceMappingRow {
    SpaceMappingRow { remote_space_id: space.to_string(), local_guild_id: guild }
}

fn pairs(rows: &[SpaceMappingRow]) -> Vec<(String, i64)> {
    rows.iter().map(|r| (r.remote_space_id.clone(), r.local_guild_id)).collect()
}

#[test]
fn mappings_sort_stably_by_space() {
    let rows = vec![row("b", 1), row("a", 2), row("b", 0), row("ab", 3), row("a", 1)];
    let sorted = sort_mappings(&rows);
    assert_eq!(
        pairs(&sorted),
        vec![
            ("a".to_string(), 2),
            ("a".to_string(), 1),
            ("ab".to_string(), 3),
            ("b".to_string(), 1),
            ("b".to_string(), 0),
        ]
    );
}

#[test]
fn catchup_plan_drops_repeats_and_caps_rooms() {
    let rows = vec![row("s2", 7), row("s1", 5), row("s2", 7), row("s1", 6), row("s3", 9)];
    let plan = plan_catchup_mappings(rows.clone(), 10);
    assert_eq!(
        pairs(&plan),
        vec![
            ("s1".to_string(), 5),
            ("s1".to_string(), 6),
            ("s2".to_string(), 7),
            ("s3".to_string(), 9),
        ]
    );
    let capped = plan_catchup_mappings(rows, 2);
    assert_eq!(pairs(&capped), vec![("s1".to_string(), 5), ("s1".to_string(), 6)]);
    assert!(plan_catchup_mappings(Vec::new(), 5).is_empty());
}

#[test]
fn catchup_origins_and_domains() {
    assert_eq!(
        catchup_mapping_origins("peer.example", "Peer.Example"),
        vec!["Peer.Example".to_string()]
    );
    assert_eq!(
        catchup_mapping_origins("chat.peer.example", "peer.example"),
        vec!["peer.example".to_string(), "chat.peer.example".to_string()]
    );
    assert_eq!(
        catchup_candidate_domains("chat.peer.example", "peer.example"),
        vec!["chat.peer.example".to_string(), "peer.example".to_string()]
    );
    assert_eq!(
        catchup_candidate_domains("PEER.example", "peer.EXAMPLE"),
        vec!["PEER.example".to_string()]
    );
    assert_eq!(
        catchup_room_ids("42", "chat.peer.example", "peer.example"),
        vec!["!42:chat.peer.example".to_string(), "!42:peer.example".to_string()]
    );
}

#[test]
fn catchup_skips_own_server_and_clamps() {
    assert!(is_own_server("Local.Example", "local.example"));
    assert!(!is_own_server("remote.example", "local.example"));
    assert_eq!(catchup_page_limit(0), 1);
    assert_eq!(catchup_page_limit(-40), 1);
    assert_eq!(catchup_page_limit(250), 250);
    assert_eq!(catchup_page_limit(9000), 500);
    assert_eq!(catchup_since_depth(-3), 0);
    assert_eq!(catchup_since_depth(17), 17);
}

#[test]
fn sync_cursor_moves_forward_only() {
    assert_eq!(newest_synced_depth(10, &vec![]), 10);
    assert_eq!(newest_synced_depth(10, &vec![(4, 0), (12, 3)]), 12);
    assert_eq!(newest_synced_depth(0, &vec![(0, 0)]), 1);
    assert_eq!(newest_synced_depth(5, &vec![(2, 1_700_000_000_000)]), 1_700_000_000_000);
    assert_eq!(newest_synced_depth(50, &vec![(3, -9)]), 50);
}

#[test]
fn inbound_event_routing_and_bookkeeping() {
    assert_eq!(federated_event_kind("m.message"), FederatedEventKind::Message);
    assert_eq!(federated_event_kind("m.message.edit"), FederatedEventKind::MessageEdit);
    assert_eq!(federated_event_kind("m.reaction.remove"), FederatedEventKind::ReactionRemove);
    assert_eq!(federated_event_kind("m.member.leave"), FederatedEventKind::MemberLeave);
    assert_eq!(federated_event_kind("m.typing"), FederatedEventKind::Other);
    assert_eq!(other_event_name("m.typing"), "FEDERATION_M.TYPING");
    assert_eq!(normalized_event_depth(5, 100), 5);
    assert_eq!(normalized_event_depth(0, 100), 100);
    assert_eq!(normalized_event_depth(-2, -7), 1);
    assert_eq!(servers_seen("a.example", Some("b.example")), vec!["a.example".to_string(), "b.example".to_string()]);
    assert_eq!(servers_seen("a.example", Some("a.example")), vec!["a.example".to_string()]);
    assert_eq!(servers_seen("a.example", None), vec!["a.example".to_string()]);
    assert_eq!(ingest_rate_bucket("a.example", 125), ("fed:ingest:a.example".to_string(), 2));
    assert_eq!(ingest_rate_bucket("a.example", -125).1, -2);
    assert!(check_ingest_rate(None, 1_000).is_ok());
    assert!(check_ingest_rate(Some(0), 1_000).is_ok());
    assert!(check_ingest_rate(Some(10), 10).is_ok());
    assert!(matches!(check_ingest_rate(Some(10), 11), Err(ApiError::RateLimited)));
}
