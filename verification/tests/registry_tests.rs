use wiz_bulb::device::{DeviceError, TransportEvent};
use wiz_bulb::ident::{Identifier, Ipv4};
use wiz_bulb::registry::{BulbRecord, Registry, RegistryError, StoreReply};
use wiz_bulb::scanner::ScanReply;

fn addr(d: u8) -> Ipv4 {
    Ipv4 { a: 10, b: 0, c: 0, d }
}

fn record(id: Option<Identifier>, name: &str, mac: &str, d: u8) -> BulbRecord {
    BulbRecord { id, mac: mac.to_string(), name: name.to_string(), addr: addr(d), power: None }
}

fn ack_on() -> TransportEvent {
    TransportEvent::Reply("{\"method\":\"setPilot\",\"result\":{\"success\":true}}".to_string())
}

fn add(reg: &mut Registry, rec: BulbRecord) -> Result<(), RegistryError> {
    reg.prepare_add(&rec)?;
    // the store would be called here; simulate a successful write
    reg.add(rec, StoreReply::Assigned(Identifier::Numeric(9000)))
}

#[test]
fn add_is_idempotent_rejecting() {
    let mut reg = Registry::new();
    let first = add(&mut reg, record(Some(Identifier::Numeric(1)), "lamp", "a1", 5));
    assert_eq!(first, Ok(()));
    assert_eq!(reg.bulbs.len(), 1);
    let second = add(&mut reg, record(Some(Identifier::Numeric(1)), "lamp", "a1", 5));
    assert_eq!(second, Err(RegistryError::AlreadyExists));
    assert_eq!(reg.bulbs.len(), 1);
}

#[test]
fn add_with_string_and_numeric_keys() {
    let mut reg = Registry::new();
    assert_eq!(add(&mut reg, record(Some(Identifier::Numeric(7)), "a", "m1", 1)), Ok(()));
    assert_eq!(
        add(&mut reg, record(Some(Identifier::Opaque("7".to_string())), "b", "m2", 2)),
        Ok(())
    );
    // a numeric and an opaque identifier never coerce into each other
    assert_eq!(reg.bulbs.len(), 2);
}

#[test]
fn add_without_id_takes_the_assigned_one() {
    let mut reg = Registry::new();
    let rec = record(None, "hall", "m3", 3);
    assert_eq!(reg.prepare_add(&rec), Ok(()));
    assert_eq!(reg.add(rec, StoreReply::Assigned(Identifier::Numeric(42))), Ok(()));
    assert_eq!(reg.bulbs[0].id, Identifier::Numeric(42));
}

#[test]
fn storage_failure_leaves_registry_unchanged() {
    let mut reg = Registry::new();
    let rec = record(Some(Identifier::Numeric(1)), "lamp", "a1", 5);
    assert_eq!(reg.prepare_add(&rec), Ok(()));
    assert_eq!(reg.add(rec, StoreReply::Failed), Err(RegistryError::StorageFailure));
    assert_eq!(reg.bulbs.len(), 0);
}

#[test]
fn find_by_name_absent_is_none_not_error() {
    let mut reg = Registry::new();
    assert!(reg.find_by_name("ghost").is_none());
    add(&mut reg, record(Some(Identifier::Numeric(1)), "lamp", "a1", 5)).unwrap();
    assert!(reg.find_by_name("ghost").is_none());
}

#[test]
fn find_by_name_first_match_wins() {
    let mut reg = Registry::new();
    add(&mut reg, record(Some(Identifier::Numeric(1)), "lamp", "a1", 5)).unwrap();
    add(&mut reg, record(Some(Identifier::Numeric(2)), "lamp", "a2", 6)).unwrap();
    let hit = reg.find_by_name("lamp").unwrap();
    assert_eq!(hit.id, Identifier::Numeric(1));
}

#[test]
fn commands_on_unknown_id_are_not_found() {
    let mut reg = Registry::new();
    assert_eq!(
        reg.turn_on_by_id(&Identifier::Numeric(3), &ack_on()),
        Err(RegistryError::NotFound)
    );
    assert_eq!(
        reg.turn_off_by_id(&Identifier::Opaque("x".to_string()), &TransportEvent::NoReply),
        Err(RegistryError::NotFound)
    );
    assert_eq!(
        reg.request_for(&Identifier::Numeric(3), wiz_bulb::codec::Command::TurnOn),
        Err(RegistryError::NotFound)
    );
}

#[test]
fn end_to_end_register_turn_on_find() {
    let mut reg = Registry::new();
    // register {id: 1, name: "lamp", address: 10.0.0.5}
    add(&mut reg, record(Some(Identifier::Numeric(1)), "lamp", "a1b2c3", 5)).unwrap();
    // turn_on_by_id(1) against a device that acknowledges
    let status = reg.turn_on_by_id(&Identifier::Numeric(1), &ack_on());
    assert_eq!(status, Ok(true));
    // find_by_name("lamp") now reports power on
    let found = reg.find_by_name("lamp").unwrap();
    assert_eq!(found.power, Some(true));
    assert_eq!(found.addr, addr(5));
}

#[test]
fn command_failure_is_surfaced_verbatim() {
    let mut reg = Registry::new();
    add(&mut reg, record(Some(Identifier::Numeric(1)), "lamp", "a1", 5)).unwrap();
    assert_eq!(
        reg.turn_on_by_id(&Identifier::Numeric(1), &TransportEvent::NoReply),
        Err(RegistryError::CommandFailed(DeviceError::Timeout))
    );
    // a timed-out command leaves the cache untouched
    assert_eq!(reg.bulbs[0].power, None);
}

#[test]
fn serialized_on_then_off_keeps_the_last_acknowledgment() {
    let mut reg = Registry::new();
    add(&mut reg, record(Some(Identifier::Numeric(1)), "lamp", "a1", 5)).unwrap();
    assert_eq!(reg.turn_on_by_id(&Identifier::Numeric(1), &ack_on()), Ok(true));
    assert_eq!(reg.turn_off_by_id(&Identifier::Numeric(1), &ack_on()), Ok(true));
    assert_eq!(reg.bulbs[0].power, Some(false));
}

#[test]
fn refresh_updates_cache_from_report() {
    let mut reg = Registry::new();
    add(&mut reg, record(Some(Identifier::Numeric(1)), "lamp", "a1", 5)).unwrap();
    let report =
        TransportEvent::Reply("{\"method\":\"getPilot\",\"result\":{\"state\":true}}".to_string());
    assert_eq!(reg.refresh_by_id(&Identifier::Numeric(1), &report), Ok(true));
    assert_eq!(reg.bulbs[0].power, Some(true));
}

#[test]
fn refresh_targets_cover_every_device() {
    let mut reg = Registry::new();
    add(&mut reg, record(Some(Identifier::Numeric(1)), "lamp", "a1", 5)).unwrap();
    add(&mut reg, record(Some(Identifier::Numeric(2)), "hall", "a2", 6)).unwrap();
    let targets = reg.refresh_targets();
    assert_eq!(targets.len(), 2);
    assert_eq!(targets[0].1, addr(5));
    assert_eq!(targets[1].1, addr(6));
    assert_eq!(targets[0].2, "{\"method\":\"getPilot\",\"params\":{}}");
}

fn probe_reply(mac: &str) -> String {
    format!("{{\"method\":\"probe\",\"result\":{{\"mac\":\"{}\"}}}}", mac)
}

#[test]
fn discovery_excludes_known_identifiers() {
    let mut reg = Registry::new();
    // registered under its manufacturer identifier as the key
    add(&mut reg, record(Some(Identifier::Opaque("aa11".to_string())), "lamp", "aa11", 5))
        .unwrap();
    let replies = vec![
        ScanReply { src: addr(5), payload: probe_reply("aa11") },
        ScanReply { src: addr(9), payload: probe_reply("bb22") },
    ];
    let unknown = reg.discover_unknown_bulbs(&replies);
    assert_eq!(unknown.len(), 1);
    assert_eq!(unknown[0].addr, addr(9));
    assert_eq!(unknown[0].mac, "bb22");
}

#[test]
fn discovery_excludes_recorded_manufacturer_ids() {
    let mut reg = Registry::new();
    // keyed numerically, but the manufacturer identifier is recorded
    add(&mut reg, record(Some(Identifier::Numeric(1)), "lamp", "aa11", 5)).unwrap();
    let replies = vec![ScanReply { src: addr(5), payload: probe_reply("aa11") }];
    assert_eq!(reg.discover_unknown_bulbs(&replies).len(), 0);
}

#[test]
fn discovery_deduplicates_by_source_address() {
    let reg = Registry::new();
    let replies = vec![
        ScanReply { src: addr(9), payload: probe_reply("bb22") },
        ScanReply { src: addr(9), payload: probe_reply("bb22") },
        ScanReply { src: addr(9), payload: "noise".to_string() },
    ];
    let unknown = reg.discover_unknown_bulbs(&replies);
    assert_eq!(unknown.len(), 1);
    assert_eq!(unknown[0].mac, "bb22");
}

#[test]
fn discovery_absorbs_malformed_replies() {
    let reg = Registry::new();
    let replies = vec![
        ScanReply { src: addr(7), payload: "garbage".to_string() },
        ScanReply { src: addr(8), payload: probe_reply("cc33") },
    ];
    let unknown = reg.discover_unknown_bulbs(&replies);
    assert_eq!(unknown.len(), 1);
    assert_eq!(unknown[0].addr, addr(8));
}

#[test]
fn hydrate_keeps_first_record_per_id_and_skips_idless() {
    let records = vec![
        record(Some(Identifier::Numeric(1)), "lamp", "a1", 5),
        record(None, "stray", "a0", 9),
        record(Some(Identifier::Numeric(1)), "copy", "a1", 5),
        record(Some(Identifier::Numeric(2)), "hall", "a2", 6),
    ];
    let reg = Registry::hydrate(records);
    assert_eq!(reg.bulbs.len(), 2);
    assert_eq!(reg.bulbs[0].name, "lamp");
    assert_eq!(reg.bulbs[1].name, "hall");
}

#[test]
fn remove_takes_the_entry_out() {
    let mut reg = Registry::new();
    add(&mut reg, record(Some(Identifier::Numeric(1)), "lamp", "a1", 5)).unwrap();
    add(&mut reg, record(Some(Identifier::Numeric(2)), "hall", "a2", 6)).unwrap();
    let gone = reg.remove_by_id(&Identifier::Numeric(1)).unwrap();
    assert_eq!(gone.name, "lamp");
    assert_eq!(reg.bulbs.len(), 1);
    assert!(matches!(
        reg.remove_by_id(&Identifier::Numeric(1)),
        Err(RegistryError::NotFound)
    ));
    // the freed identifier can be registered again
    assert_eq!(add(&mut reg, record(Some(Identifier::Numeric(1)), "new", "a3", 7)), Ok(()));
}
