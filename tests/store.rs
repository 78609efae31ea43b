use iot_store::{bind, StoreError, VehicleRecord, VehicleStore};

fn record(vin: &[u8]) -> VehicleRecord {
    VehicleRecord {
        vin: bind(vin, 32).unwrap(),
        manufacturer: bind(b"Honda", 32).unwrap(),
        model: bind(b"Accord", 32).unwrap(),
        identifiers: vec![bind(b"sim-1", 32).unwrap()],
    }
}

#[test]
fn store_insert_and_get() {
    let mut s = VehicleStore::new(2);
    assert_eq!(s.len(), 0);
    assert!(s.insert(b"K1", record(b"K1")).is_ok());
    assert_eq!(s.len(), 1);
    assert!(s.contains_key(b"K1"));
    assert!(!s.contains_key(b"K2"));
    let got = s.get(b"K1").unwrap();
    assert_eq!(got.vin.as_bytes(), b"K1");
    assert_eq!(got.identifiers.len(), 1);
    assert!(s.get(b"K2").is_none());
}

#[test]
fn store_insert_existing_key() {
    let mut s = VehicleStore::new(2);
    s.insert(b"K1", record(b"K1")).unwrap();
    assert_eq!(s.insert(b"K1", record(b"K1")), Err(StoreError::KeyExists));
    assert_eq!(s.len(), 1);
}

#[test]
fn store_insert_when_full() {
    let mut s = VehicleStore::new(1);
    assert_eq!(s.max_entries(), 1);
    s.insert(b"K1", record(b"K1")).unwrap();
    assert_eq!(s.insert(b"K2", record(b"K2")), Err(StoreError::CapacityExceeded));
    assert_eq!(s.len(), 1);
    assert!(!s.contains_key(b"K2"));
}

#[test]
fn store_update_returns_prior() {
    let mut s = VehicleStore::new(3);
    s.insert(b"K1", record(b"K1")).unwrap();
    s.insert(b"K2", record(b"K2")).unwrap();
    let mut replacement = record(b"K1");
    replacement.model = bind(b"Civic", 32).unwrap();
    let prior = s.update(b"K1", replacement).unwrap();
    assert_eq!(prior.model.as_bytes(), b"Accord");
    assert_eq!(s.get(b"K1").unwrap().model.as_bytes(), b"Civic");
    assert_eq!(s.get(b"K2").unwrap().model.as_bytes(), b"Accord");
    assert_eq!(s.len(), 2);
    assert!(matches!(s.update(b"K9", record(b"K9")), Err(StoreError::NotFound)));
}

#[test]
fn store_remove_returns_prior() {
    let mut s = VehicleStore::new(3);
    s.insert(b"K1", record(b"K1")).unwrap();
    s.insert(b"K2", record(b"K2")).unwrap();
    let prior = s.remove(b"K1").unwrap();
    assert_eq!(prior.vin.as_bytes(), b"K1");
    assert!(!s.contains_key(b"K1"));
    assert!(s.contains_key(b"K2"));
    assert_eq!(s.len(), 1);
    assert!(matches!(s.remove(b"K1"), Err(StoreError::NotFound)));
}
