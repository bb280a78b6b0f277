use joker::daemon::{add_daemon, checkout_daemon, names_unique, Config, Daemon, IpAddress,
    SocketAddress};
use joker::errors::{AbsentHashMapKeyError, JokerError};
use joker::persist::{load_config, save_config};

fn v4(a: u8, b: u8, c: u8, d: u8, port: u16) -> SocketAddress {
    SocketAddress { ip: IpAddress::V4(a, b, c, d), port }
}

fn daemon(name: &str, addr: SocketAddress) -> Daemon {
    Daemon { name: name.as_bytes().to_vec(), socket_address: addr }
}

fn sample_registry() -> Config {
    Config {
        current_daemon: daemon("alpha", v4(10, 0, 0, 1, 4000)),
        daemons: vec![
            daemon("alpha", v4(10, 0, 0, 1, 4000)),
            daemon("beta", v4(10, 0, 0, 2, 4001)),
            daemon("gamma", SocketAddress { ip: IpAddress::V6(0x20010db800000000, 1), port: 443 }),
        ],
    }
}

#[test]
fn save_load_save_round_trip() {
    let r = sample_registry();
    let bytes = save_config(&r);
    let loaded = load_config(&bytes).expect("a saved registry must load");
    let bytes_again = save_config(&loaded);
    assert_eq!(bytes, bytes_again);
    assert_eq!(loaded.current_daemon.name, r.current_daemon.name);
    assert_eq!(loaded.current_daemon.socket_address, r.current_daemon.socket_address);
    assert_eq!(loaded.daemons.len(), r.daemons.len());
    for (a, b) in loaded.daemons.iter().zip(r.daemons.iter()) {
        assert_eq!(a.name, b.name);
        assert_eq!(a.socket_address, b.socket_address);
    }
}

#[test]
fn empty_daemon_list_round_trips() {
    let r = Config { current_daemon: daemon("only", v4(127, 0, 0, 1, 9)), daemons: vec![] };
    let bytes = save_config(&r);
    let loaded = load_config(&bytes).expect("load");
    assert_eq!(loaded.daemons.len(), 0);
    assert_eq!(loaded.current_daemon.name, b"only".to_vec());
}

#[test]
fn empty_name_round_trips() {
    let r = Config {
        current_daemon: daemon("", v4(0, 0, 0, 0, 0)),
        daemons: vec![daemon("x", v4(1, 2, 3, 4, 65535))],
    };
    let bytes = save_config(&r);
    let loaded = load_config(&bytes).expect("load");
    assert_eq!(loaded.current_daemon.name, Vec::<u8>::new());
    assert_eq!(loaded.daemons[0].socket_address, v4(1, 2, 3, 4, 65535));
}

#[test]
fn load_rejects_empty_bytes() {
    assert!(matches!(load_config(&vec![]), Err(JokerError::ConfigMalformed)));
}

#[test]
fn load_rejects_truncated_bytes() {
    let mut bytes = save_config(&sample_registry());
    bytes.pop();
    assert!(matches!(load_config(&bytes), Err(JokerError::ConfigMalformed)));
}

#[test]
fn load_rejects_trailing_bytes() {
    let mut bytes = save_config(&sample_registry());
    bytes.push(0);
    assert!(matches!(load_config(&bytes), Err(JokerError::ConfigMalformed)));
}

#[test]
fn load_rejects_duplicate_names() {
    let r = Config {
        current_daemon: daemon("a", v4(1, 1, 1, 1, 1)),
        daemons: vec![daemon("dup", v4(1, 1, 1, 1, 1)), daemon("dup", v4(2, 2, 2, 2, 2))],
    };
    let bytes = save_config(&r);
    assert!(matches!(load_config(&bytes), Err(JokerError::ConfigMalformed)));
}

#[test]
fn load_rejects_bad_address_tag() {
    let r = Config { current_daemon: daemon("a", v4(1, 1, 1, 1, 1)), daemons: vec![] };
    let mut bytes = save_config(&r);
    // The address family tag of the current daemon sits right after the
    // 8-byte length prefix and the 1-byte name.
    bytes[9] = 7;
    assert!(matches!(load_config(&bytes), Err(JokerError::ConfigMalformed)));
}

#[test]
fn add_daemon_inserts_new_entry() {
    let r = sample_registry();
    let r2 = add_daemon(&r, b"delta".to_vec(), v4(10, 0, 0, 9, 4009));
    assert_eq!(r2.daemons.len(), 4);
    assert!(names_unique(&r2.daemons));
    let r3 = checkout_daemon(&r2, &b"delta".to_vec()).expect("delta is registered");
    assert_eq!(r3.current_daemon.socket_address, v4(10, 0, 0, 9, 4009));
}

#[test]
fn add_daemon_overwrites_existing_entry() {
    // The chosen policy is idempotent overwrite: re-adding a present name
    // replaces the stored address.
    let r = sample_registry();
    let r2 = add_daemon(&r, b"beta".to_vec(), v4(192, 168, 0, 7, 5000));
    assert_eq!(r2.daemons.len(), r.daemons.len());
    let r3 = checkout_daemon(&r2, &b"beta".to_vec()).expect("beta is registered");
    assert_eq!(r3.current_daemon.socket_address, v4(192, 168, 0, 7, 5000));
}

#[test]
fn add_daemon_leaves_other_entries_alone() {
    let r = sample_registry();
    let r2 = add_daemon(&r, b"beta".to_vec(), v4(192, 168, 0, 7, 5000));
    let r3 = checkout_daemon(&r2, &b"gamma".to_vec()).expect("gamma is untouched");
    assert_eq!(
        r3.current_daemon.socket_address,
        SocketAddress { ip: IpAddress::V6(0x20010db800000000, 1), port: 443 },
    );
}

#[test]
fn add_daemon_keeps_current_daemon() {
    let r = sample_registry();
    let r2 = add_daemon(&r, b"delta".to_vec(), v4(8, 8, 8, 8, 53));
    assert_eq!(r2.current_daemon.name, r.current_daemon.name);
    assert_eq!(r2.current_daemon.socket_address, r.current_daemon.socket_address);
}

#[test]
fn checkout_switches_and_keeps_previous() {
    let r = sample_registry();
    let r2 = checkout_daemon(&r, &b"beta".to_vec()).expect("beta is registered");
    assert_eq!(r2.current_daemon.name, b"beta".to_vec());
    assert_eq!(r2.current_daemon.socket_address, v4(10, 0, 0, 2, 4001));
    // The previous current daemon is still in the map under its own name.
    let r3 = checkout_daemon(&r2, &b"alpha".to_vec()).expect("alpha was re-inserted");
    assert_eq!(r3.current_daemon.name, b"alpha".to_vec());
}

#[test]
fn checkout_there_and_back_restores_current() {
    let r = sample_registry();
    let r2 = checkout_daemon(&r, &b"gamma".to_vec()).expect("gamma is registered");
    let r3 = checkout_daemon(&r2, &b"alpha".to_vec()).expect("alpha was re-inserted");
    assert_eq!(r3.current_daemon.name, r.current_daemon.name);
    assert_eq!(r3.current_daemon.socket_address, r.current_daemon.socket_address);
}

#[test]
fn repeated_checkout_is_idempotent() {
    let r = sample_registry();
    let r2 = checkout_daemon(&r, &b"beta".to_vec()).expect("beta is registered");
    let r3 = checkout_daemon(&r2, &b"beta".to_vec()).expect("beta is still registered");
    assert_eq!(r3.current_daemon.name, r2.current_daemon.name);
    assert_eq!(r3.current_daemon.socket_address, r2.current_daemon.socket_address);
}

#[test]
fn checkout_unknown_name_fails_and_preserves_registry() {
    let r = sample_registry();
    let result = checkout_daemon(&r, &b"nowhere".to_vec());
    assert!(matches!(result, Err(JokerError::UnknownDaemon)));
    // The registry value is untouched: it still saves to the same bytes.
    assert_eq!(save_config(&r), save_config(&sample_registry()));
}

#[test]
fn names_unique_spots_duplicates() {
    let list = vec![daemon("a", v4(1, 1, 1, 1, 1)), daemon("a", v4(2, 2, 2, 2, 2))];
    assert!(!names_unique(&list));
    let list2 = vec![daemon("a", v4(1, 1, 1, 1, 1)), daemon("b", v4(1, 1, 1, 1, 1))];
    assert!(names_unique(&list2));
}

#[test]
fn error_messages_name_the_failure() {
    assert_eq!(AbsentHashMapKeyError.message(), "No such key in a hashmap.");
    assert_eq!(JokerError::UnknownDaemon.message(), "No such daemon in the registry.");
    assert_eq!(JokerError::ConfigNotFound.message(), "Configuration file not found.");
    assert_eq!(JokerError::ConfigWriteFailure.message(), "Could not write the configuration file.");
    assert_eq!(JokerError::AddressParseFailure.message(), "Could not parse the socket address.");
}
