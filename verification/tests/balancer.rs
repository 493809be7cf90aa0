use bully_cluster::loadbalancer::LoadBalancer;

fn registered_three() -> LoadBalancer {
    let mut lb = LoadBalancer::new();
    lb.register_server(10, "127.0.0.1:9010".to_string());
    lb.register_server(11, "127.0.0.1:9011".to_string());
    lb.register_server(12, "127.0.0.1:9012".to_string());
    lb
}

#[test]
fn round_robin_cycles_in_registration_order() {
    let mut lb = registered_three();
    let picks: Vec<u32> = (0..6).map(|_| lb.get_next_server().unwrap().0).collect();
    assert_eq!(picks, vec![10, 11, 12, 10, 11, 12]);
}

#[test]
fn round_robin_on_empty_registry_yields_nothing() {
    let mut lb = LoadBalancer::new();
    assert!(lb.get_next_server().is_none());
    assert!(lb.get_least_loaded_server().is_none());
    assert_eq!(lb.get_server_count(), 0);
}

#[test]
fn round_robin_skips_unavailable_servers() {
    let mut lb = registered_three();
    lb.mark_server_unavailable(11);
    let picks: Vec<u32> = (0..4).map(|_| lb.get_next_server().unwrap().0).collect();
    assert_eq!(picks, vec![10, 12, 10, 12]);
    lb.mark_server_available(11);
    assert_eq!(lb.get_server_count(), 3);
}

#[test]
fn least_loaded_picks_minimum() {
    let mut lb = registered_three();
    lb.update_server_load(10, 5);
    lb.update_server_load(11, 2);
    lb.update_server_load(12, 9);
    let (id, address) = lb.get_least_loaded_server().unwrap();
    assert_eq!(id, 11);
    assert_eq!(address, "127.0.0.1:9011");
}

#[test]
fn least_loaded_breaks_ties_by_registration_order() {
    let mut lb = registered_three();
    lb.update_server_load(10, 4);
    lb.update_server_load(11, 4);
    lb.update_server_load(12, 4);
    assert_eq!(lb.get_least_loaded_server().unwrap().0, 10);
}

#[test]
fn least_loaded_ignores_unavailable_servers() {
    let mut lb = registered_three();
    lb.update_server_load(10, 5);
    lb.update_server_load(11, 2);
    lb.update_server_load(12, 9);
    lb.mark_server_unavailable(11);
    assert_eq!(lb.get_least_loaded_server().unwrap().0, 10);
}

#[test]
fn register_resets_and_overwrites() {
    let mut lb = registered_three();
    lb.update_server_load(11, 7);
    lb.register_server(11, "127.0.0.1:9111".to_string());
    lb.update_server_load(99, 3);  // absent: silently ignored
    let avail = lb.get_available_servers();
    assert_eq!(
        avail,
        vec![
            (10, "127.0.0.1:9010".to_string()),
            (11, "127.0.0.1:9111".to_string()),
            (12, "127.0.0.1:9012".to_string()),
        ]
    );
    // the overwritten entry is back at zero load
    lb.update_server_load(10, 1);
    lb.update_server_load(12, 1);
    assert_eq!(lb.get_least_loaded_server().unwrap().0, 11);
}

#[test]
fn unregister_removes_the_entry() {
    let mut lb = registered_three();
    lb.unregister_server(11);
    assert_eq!(lb.get_server_count(), 2);
    let picks: Vec<u32> = (0..2).map(|_| lb.get_next_server().unwrap().0).collect();
    assert_eq!(picks, vec![10, 12]);
    lb.unregister_server(11);  // absent: silently ignored
    assert_eq!(lb.get_server_count(), 2);
}

#[test]
fn marking_absent_servers_is_ignored() {
    let mut lb = registered_three();
    lb.mark_server_unavailable(99);
    lb.mark_server_available(99);
    assert_eq!(lb.get_server_count(), 3);
}

#[test]
fn clone_copies_registry_and_cursor() {
    let mut lb = registered_three();
    lb.get_next_server();
    let mut copy = lb.clone();
    assert_eq!(copy.get_server_count(), 3);
    // both continue from the same cursor, independently
    assert_eq!(copy.get_next_server().unwrap().0, 11);
    assert_eq!(lb.get_next_server().unwrap().0, 11);
}
