use bully_cluster::config::Config;
use bully_cluster::decimal::u32_to_string;
use bully_cluster::encryption::{decrypt_data, encrypt_data, generate_key_from_username};

#[test]
fn numerals_render_decimally() {
    assert_eq!(u32_to_string(0), "0");
    assert_eq!(u32_to_string(7), "7");
    assert_eq!(u32_to_string(42), "42");
    assert_eq!(u32_to_string(1000), "1000");
    assert_eq!(u32_to_string(u32::MAX), "4294967295");
}

fn sample_config() -> Config {
    Config {
        servers: vec![
            ("node1".to_string(), "127.0.0.1:8001".to_string()),
            ("node2".to_string(), "127.0.0.1:8002".to_string()),
            ("node3".to_string(), "127.0.0.1:8003".to_string()),
            ("comment".to_string(), "ignored".to_string()),
        ],
    }
}

#[test]
fn addresses_are_found_by_node_key() {
    let config = sample_config();
    assert_eq!(config.get_server_address(1), Some("127.0.0.1:8001".to_string()));
    assert_eq!(config.get_server_address(2), Some("127.0.0.1:8002".to_string()));
    assert_eq!(config.get_server_address(9), None);
}

#[test]
fn all_addresses_come_in_node_order() {
    let config = sample_config();
    assert_eq!(
        config.get_all_server_addresses(),
        vec![
            "127.0.0.1:8001".to_string(),
            "127.0.0.1:8002".to_string(),
            "127.0.0.1:8003".to_string(),
        ]
    );
    let partial = Config {
        servers: vec![("node2".to_string(), "127.0.0.1:8002".to_string())],
    };
    assert_eq!(partial.get_all_server_addresses(), vec!["127.0.0.1:8002".to_string()]);
}

#[test]
fn encryption_round_trips() {
    let key = generate_key_from_username("alice");
    let data: Vec<u8> = (0u8..=255).collect();
    let encrypted = encrypt_data(&data, &key);
    assert_eq!(encrypted.len(), data.len());
    assert_ne!(encrypted, data);
    assert_eq!(decrypt_data(&encrypted, &key), data);
}

#[test]
fn keys_depend_on_the_username_alone() {
    let a1 = generate_key_from_username("alice");
    let a2 = generate_key_from_username("alice");
    let b = generate_key_from_username("bob");
    assert_eq!(a1, a2);
    assert_ne!(a1, b);
    assert_eq!(a1.len(), 16);
}

#[test]
fn wrong_key_does_not_decrypt() {
    let data = b"confidential image bytes".to_vec();
    let encrypted = encrypt_data(&data, &generate_key_from_username("alice"));
    let wrong = decrypt_data(&encrypted, &generate_key_from_username("bob"));
    assert_ne!(wrong, data);
}

#[test]
fn empty_payload_encrypts_to_empty() {
    let key = generate_key_from_username("alice");
    let encrypted = encrypt_data(&[], &key);
    assert!(encrypted.is_empty());
}
