use iot_store::{Change, Config, Event, Registry, RegistryError};

fn ids(items: &[&[u8]]) -> Vec<Vec<u8>> {
    items.iter().map(|i| i.to_vec()).collect()
}

fn id_bytes(reg: &Registry, key: &[u8]) -> Vec<Vec<u8>> {
    reg.get(key)
        .unwrap()
        .identifiers
        .iter()
        .map(|v| v.as_bytes().to_vec())
        .collect()
}

#[test]
fn default_config_limits() {
    let c = Config::default();
    assert_eq!(c, Config::new(32, 32, 32, 32, 100000, 32));
    assert_eq!(c.max_vehicles, 100000);
    assert_eq!(Registry::new(c).config(), c);
}

#[test]
fn register_stores_submitted_record() {
    let mut reg = Registry::new(Config::default());
    let key = reg
        .register(b"1HGCM82633A004352", b"Honda", b"Accord", &ids(&[b"imei-1", b"sim-7"]))
        .unwrap();
    assert_eq!(key, b"1HGCM82633A004352".to_vec());
    assert_eq!(reg.count(), 1);
    let rec = reg.get(b"1HGCM82633A004352").unwrap();
    assert_eq!(rec.vin.as_bytes(), b"1HGCM82633A004352");
    assert_eq!(rec.manufacturer.as_bytes(), b"Honda");
    assert_eq!(rec.model.as_bytes(), b"Accord");
    assert_eq!(id_bytes(&reg, &key), ids(&[b"imei-1", b"sim-7"]));
    assert!(matches!(&reg.events()[0], Event::VehicleRegistered { key } if key == b"1HGCM82633A004352"));
    assert_eq!(reg.events().len(), 1);
}

#[test]
fn register_keeps_repeated_identifier_once() {
    let mut reg = Registry::new(Config::default());
    let key = reg.register(b"VIN1", b"M", b"X", &ids(&[b"a", b"b", b"a"])).unwrap();
    assert_eq!(id_bytes(&reg, &key), ids(&[b"a", b"b"]));
}

#[test]
fn register_duplicate_vin() {
    let mut reg = Registry::new(Config::default());
    reg.register(b"VIN1", b"Honda", b"Accord", &ids(&[])).unwrap();
    assert_eq!(
        reg.register(b"VIN1", b"Ford", b"Focus", &ids(&[b"x"])),
        Err(RegistryError::DuplicateVin)
    );
    assert_eq!(reg.count(), 1);
    assert_eq!(reg.get(b"VIN1").unwrap().manufacturer.as_bytes(), b"Honda");
    assert_eq!(reg.events().len(), 1);
}

#[test]
fn register_when_full() {
    let mut reg = Registry::new(Config::new(32, 32, 32, 32, 1, 32));
    reg.register(b"VIN1", b"Honda", b"Accord", &ids(&[b"i"])).unwrap();
    assert_eq!(
        reg.register(b"VIN2", b"Ford", b"Focus", &ids(&[])),
        Err(RegistryError::RegistryFull)
    );
    assert_eq!(reg.count(), 1);
    assert!(reg.get(b"VIN2").is_none());
    assert_eq!(reg.get(b"VIN1").unwrap().model.as_bytes(), b"Accord");
    assert_eq!(id_bytes(&reg, b"VIN1"), ids(&[b"i"]));
    assert_eq!(reg.events().len(), 1);
}

#[test]
fn register_with_no_room_at_all() {
    let mut reg = Registry::new(Config::new(32, 32, 32, 32, 0, 32));
    assert_eq!(reg.register(b"VIN1", b"M", b"X", &ids(&[])), Err(RegistryError::RegistryFull));
    assert_eq!(reg.count(), 0);
}

#[test]
fn register_field_bounds() {
    let mut reg = Registry::new(Config::new(4, 3, 2, 1, 10, 4));
    assert_eq!(reg.register(b"VIN12", b"M", b"X", &ids(&[])), Err(RegistryError::TooLong));
    assert_eq!(reg.register(b"VIN1", b"Make", b"X", &ids(&[])), Err(RegistryError::TooLong));
    assert_eq!(reg.register(b"VIN1", b"M", b"XYZ", &ids(&[])), Err(RegistryError::TooLong));
    assert_eq!(reg.register(b"VIN1", b"M", b"X", &ids(&[b"a", b"bb"])), Err(RegistryError::TooLong));
    assert_eq!(reg.count(), 0);
    assert!(reg.events().is_empty());
    assert!(reg.register(b"VIN1", b"Mak", b"XY", &ids(&[b"a", b"b"])).is_ok());
}

#[test]
fn register_vin_held_to_key_length() {
    let mut reg = Registry::new(Config::new(17, 32, 32, 32, 10, 8));
    assert_eq!(reg.register(b"123456789", b"M", b"X", &ids(&[])), Err(RegistryError::TooLong));
    assert!(reg.register(b"12345678", b"M", b"X", &ids(&[])).is_ok());
}

#[test]
fn register_until_full_scenario() {
    let mut reg = Registry::new(Config::new(17, 32, 32, 32, 2, 17));
    let k1 = reg.register(b"1HGCM82633A004352", b"Honda", b"Accord", &ids(&[])).unwrap();
    assert_eq!(k1, b"1HGCM82633A004352".to_vec());
    assert_eq!(reg.count(), 1);
    let k2 = reg.register(b"2HGCM82633A004352", b"Honda", b"Accord", &ids(&[])).unwrap();
    assert_eq!(k2, b"2HGCM82633A004352".to_vec());
    assert_eq!(reg.count(), 2);
    assert_eq!(
        reg.register(b"3HGCM82633A004352", b"Honda", b"Accord", &ids(&[])),
        Err(RegistryError::RegistryFull)
    );
    assert_eq!(reg.count(), 2);
}

#[test]
fn update_identifiers_removes_then_adds() {
    let mut reg = Registry::new(Config::default());
    let key = reg.register(b"VIN1", b"M", b"X", &ids(&[b"a", b"b", b"c"])).unwrap();
    reg.update_identifiers(&key, ids(&[b"d", b"a", b"c"]), ids(&[b"a", b"z"])).unwrap();
    assert_eq!(id_bytes(&reg, &key), ids(&[b"b", b"c", b"d", b"a"]));
    assert_eq!(reg.count(), 1);
    match &reg.events()[1] {
        Event::VehicleUpdated { key: k, change: Change::Identifiers { added, removed } } => {
            assert_eq!(k, &key);
            assert_eq!(added, &ids(&[b"d", b"a", b"c"]));
            assert_eq!(removed, &ids(&[b"a", b"z"]));
        }
        other => panic!("unexpected event {:?}", other),
    }
}

#[test]
fn update_identifiers_errors() {
    let mut reg = Registry::new(Config::new(32, 32, 32, 3, 10, 32));
    assert_eq!(
        reg.update_identifiers(b"VIN1", ids(&[]), ids(&[])),
        Err(RegistryError::NotFound)
    );
    reg.register(b"VIN1", b"M", b"X", &ids(&[b"a"])).unwrap();
    assert_eq!(
        reg.update_identifiers(b"VIN1", ids(&[b"ok", b"long"]), ids(&[b"a"])),
        Err(RegistryError::TooLong)
    );
    assert_eq!(id_bytes(&reg, b"VIN1"), ids(&[b"a"]));
    assert_eq!(reg.events().len(), 1);
    assert!(reg.update_identifiers(b"VIN1", ids(&[b"abc"]), ids(&[])).is_ok());
    assert_eq!(id_bytes(&reg, b"VIN1"), ids(&[b"a", b"abc"]));
}

#[test]
fn deregister_removes_record() {
    let mut reg = Registry::new(Config::default());
    assert_eq!(reg.deregister(b"VIN1"), Err(RegistryError::NotFound));
    reg.register(b"VIN1", b"M", b"X", &ids(&[])).unwrap();
    reg.register(b"VIN2", b"M", b"Y", &ids(&[])).unwrap();
    assert_eq!(reg.deregister(b"VIN1"), Ok(()));
    assert!(!reg.contains(b"VIN1"));
    assert!(reg.contains(b"VIN2"));
    assert_eq!(reg.count(), 1);
    assert!(matches!(&reg.events()[2], Event::VehicleDeregistered { key } if key == b"VIN1"));
    assert_eq!(reg.deregister(b"VIN1"), Err(RegistryError::NotFound));
}

#[test]
fn register_update_deregister_leaves_no_trace() {
    let mut reg = Registry::new(Config::default());
    let key = reg.register(b"1HGCM82633A004352", b"Honda", b"Accord", &ids(&[b"a"])).unwrap();
    reg.update_identifiers(&key, ids(&[b"b"]), ids(&[b"a"])).unwrap();
    reg.deregister(&key).unwrap();
    assert!(reg.get(&key).is_none());
    assert_eq!(reg.count(), 0);
    assert_eq!(reg.events().len(), 3);
    let again = reg.register(b"1HGCM82633A004352", b"Honda", b"Civic", &ids(&[])).unwrap();
    assert_eq!(again, key);
}

#[test]
fn correct_details_sets_manufacturer_and_model() {
    let mut reg = Registry::new(Config::new(32, 5, 4, 32, 10, 32));
    assert_eq!(reg.correct_details(b"VIN1", b"Ford", b"Ka"), Err(RegistryError::NotFound));
    reg.register(b"VIN1", b"Hond", b"Acc", &ids(&[b"i1", b"i2"])).unwrap();
    assert_eq!(reg.correct_details(b"VIN1", b"Toyota", b"Ka"), Err(RegistryError::TooLong));
    assert_eq!(reg.correct_details(b"VIN1", b"Ford", b"Focus"), Err(RegistryError::TooLong));
    assert_eq!(reg.events().len(), 1);
    assert_eq!(reg.correct_details(b"VIN1", b"Honda", b"Jazz"), Ok(()));
    let rec = reg.get(b"VIN1").unwrap();
    assert_eq!(rec.vin.as_bytes(), b"VIN1");
    assert_eq!(rec.manufacturer.as_bytes(), b"Honda");
    assert_eq!(rec.model.as_bytes(), b"Jazz");
    assert_eq!(id_bytes(&reg, b"VIN1"), ids(&[b"i1", b"i2"]));
    assert_eq!(reg.count(), 1);
    match &reg.events()[1] {
        Event::VehicleUpdated { key, change: Change::Details { manufacturer, model } } => {
            assert_eq!(key, &b"VIN1".to_vec());
            assert_eq!(manufacturer, &b"Honda".to_vec());
            assert_eq!(model, &b"Jazz".to_vec());
        }
        other => panic!("unexpected event {:?}", other),
    }
}

#[test]
fn correct_details_in_full_registry() {
    let mut reg = Registry::new(Config::new(32, 32, 32, 32, 1, 32));
    reg.register(b"VIN1", b"M", b"X", &ids(&[])).unwrap();
    assert_eq!(reg.correct_details(b"VIN1", b"N", b"Y"), Ok(()));
    assert_eq!(reg.get(b"VIN1").unwrap().model.as_bytes(), b"Y");
}
