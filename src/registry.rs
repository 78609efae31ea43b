use vstd::prelude::*;

use crate::codec::{bind, copy_bytes, BoundedValue};
use crate::config::Config;
use crate::record::{
    add_all, add_values, all_fit, all_within, fits, lemma_add_all, lemma_without, raw_view,
    remove_values, update_ids, values_view, RecordView, VehicleRecord,
};
use crate::store::VehicleStore;

verus! {

/// Why a registry transition was rejected. A rejected transition changes
/// nothing and logs nothing.
#[derive(Clone, Copy, Debug, PartialEq, Eq, Structural)]
pub enum RegistryError {
    /// A field is longer than its configured bound.
    TooLong,
    /// The registry already holds `max_vehicles` records.
    RegistryFull,
    /// A record with the same VIN is already registered.
    DuplicateVin,
    /// No record is registered under the key.
    NotFound,
}

/// What an update changed, as mathematical values.
pub enum ChangeView {
    Identifiers(Seq<Seq<u8>>, Seq<Seq<u8>>),
    Details(Seq<u8>, Seq<u8>),
}

/// What an event says, as mathematical values.
pub enum EventView {
    Registered(Seq<u8>),
    Updated(Seq<u8>, ChangeView),
    Deregistered(Seq<u8>),
}

/// What an update changed.
#[derive(Debug)]
pub enum Change {
    /// `removed` were taken out of the identifiers, then `added` put in.
    Identifiers { added: Vec<Vec<u8>>, removed: Vec<Vec<u8>> },
    /// The manufacturer and model were set to these values.
    Details { manufacturer: Vec<u8>, model: Vec<u8> },
}

impl View for Change {
    type V = ChangeView;

    open spec fn view(&self) -> ChangeView {
        match self {
            Change::Identifiers { added, removed } => ChangeView::Identifiers(raw_view(added@), raw_view(removed@)),
            Change::Details { manufacturer, model } => ChangeView::Details(manufacturer@, model@),
        }
    }
}

/// An entry of the registry's event log.
#[derive(Debug)]
pub enum Event {
    /// A record was registered under `key`.
    VehicleRegistered { key: Vec<u8> },
    /// The record under `key` was changed as `change` says.
    VehicleUpdated { key: Vec<u8>, change: Change },
    /// The record under `key` was removed.
    VehicleDeregistered { key: Vec<u8> },
}

impl View for Event {
    type V = EventView;

    open spec fn view(&self) -> EventView {
        match self {
            Event::VehicleRegistered { key } => EventView::Registered(key@),
            Event::VehicleUpdated { key, change } => EventView::Updated(key@, change@),
            Event::VehicleDeregistered { key } => EventView::Deregistered(key@),
        }
    }
}

/// The records a registry holds, keyed by VIN.
pub type Records = Map<Seq<u8>, RecordView>;

/// Whether every field of a registration request is within its bound. The
/// VIN is held both to `max_vin_length` and to `vin_prefix`, as it is the key.
pub open spec fn fields_fit(c: Config, vin: Seq<u8>, manufacturer: Seq<u8>, model: Seq<u8>, ids: Seq<Seq<u8>>) -> bool {
    &&& vin.len() <= c.vin_prefix
    &&& vin.len() <= c.max_vin_length
    &&& manufacturer.len() <= c.max_manufacturer_length
    &&& model.len() <= c.max_model_length
    &&& all_within(ids, c.max_identifier_length as nat)
}

/// Why registering these fields in `recs` is rejected, if it is.
pub open spec fn register_error(
    c: Config,
    recs: Records,
    vin: Seq<u8>,
    manufacturer: Seq<u8>,
    model: Seq<u8>,
    ids: Seq<Seq<u8>>,
) -> Option<RegistryError> {
    if !fields_fit(c, vin, manufacturer, model, ids) {
        Some(RegistryError::TooLong)
    } else if recs.contains_key(vin) {
        Some(RegistryError::DuplicateVin)
    } else if recs.dom().len() >= c.max_vehicles {
        Some(RegistryError::RegistryFull)
    } else {
        None
    }
}

/// The record that registering these fields creates: repeated identifiers
/// are kept once, at their first place.
pub open spec fn new_record(vin: Seq<u8>, manufacturer: Seq<u8>, model: Seq<u8>, ids: Seq<Seq<u8>>) -> RecordView {
    RecordView { vin, manufacturer, model, identifiers: add_all(seq![], ids) }
}

/// The records after a request to register these fields.
pub open spec fn register_next(
    c: Config,
    recs: Records,
    vin: Seq<u8>,
    manufacturer: Seq<u8>,
    model: Seq<u8>,
    ids: Seq<Seq<u8>>,
) -> Records {
    if register_error(c, recs, vin, manufacturer, model, ids) is Some {
        recs
    } else {
        recs.insert(vin, new_record(vin, manufacturer, model, ids))
    }
}

/// Why updating the identifiers under `key` is rejected, if it is.
pub open spec fn update_error(c: Config, recs: Records, key: Seq<u8>, add: Seq<Seq<u8>>) -> Option<RegistryError> {
    if !recs.contains_key(key) {
        Some(RegistryError::NotFound)
    } else if !all_within(add, c.max_identifier_length as nat) {
        Some(RegistryError::TooLong)
    } else {
        None
    }
}

/// The records after a request to update the identifiers under `key`.
pub open spec fn update_next(c: Config, recs: Records, key: Seq<u8>, add: Seq<Seq<u8>>, rm: Seq<Seq<u8>>) -> Records {
    if update_error(c, recs, key, add) is Some {
        recs
    } else {
        let r = recs[key];
        recs.insert(key, RecordView { identifiers: update_ids(r.identifiers, add, rm), ..r })
    }
}

/// Why correcting the manufacturer and model under `key` is rejected, if it is.
pub open spec fn correct_error(c: Config, recs: Records, key: Seq<u8>, manufacturer: Seq<u8>, model: Seq<u8>) -> Option<RegistryError> {
    if !recs.contains_key(key) {
        Some(RegistryError::NotFound)
    } else if !(manufacturer.len() <= c.max_manufacturer_length && model.len() <= c.max_model_length) {
        Some(RegistryError::TooLong)
    } else {
        None
    }
}

/// The records after a request to correct the manufacturer and model under `key`.
pub open spec fn correct_next(c: Config, recs: Records, key: Seq<u8>, manufacturer: Seq<u8>, model: Seq<u8>) -> Records {
    if correct_error(c, recs, key, manufacturer, model) is Some {
        recs
    } else {
        recs.insert(key, RecordView { manufacturer, model, ..recs[key] })
    }
}

/// The records after a request to deregister `key`.
pub open spec fn deregister_next(recs: Records, key: Seq<u8>) -> Records {
    recs.remove(key)
}

/// The registry: a bounded store of vehicle records keyed by VIN, the limits
/// it was assembled with, and the log of every transition that succeeded.
#[derive(Debug)]
pub struct Registry {
    config: Config,
    store: VehicleStore,
    events: Vec<Event>,
}

impl Registry {
    /// The records held, keyed by VIN.
    pub closed spec fn records(&self) -> Records {
        self.store@
    }

    /// The event log, oldest first.
    pub closed spec fn log(&self) -> Seq<EventView> {
        self.events@.map_values(|e: Event| e@)
    }

    /// The limits the registry was assembled with.
    pub closed spec fn limits(&self) -> Config {
        self.config
    }

    /// Every record fits the limits and is keyed by its VIN, and there are no
    /// more records than `max_vehicles`.
    pub closed spec fn wf(&self) -> bool {
        &&& self.store.wf()
        &&& self.store.capacity() == self.config.max_vehicles
        &&& forall|k: Seq<u8>| #[trigger] self.store@.contains_key(k) ==> fits(self.config, self.store@[k]) && self.store@[k].vin == k
    }

    /// The records are finitely many, and no more than `max_vehicles`.
    pub proof fn lemma_bounded(&self)
        requires
            self.wf(),
        ensures
            self.records().dom().finite(),
            self.records().dom().len() <= self.limits().max_vehicles,
    {
        self.store.lemma_count();
    }

    /// An empty registry with the given limits and an empty log.
    pub fn new(config: Config) -> (r: Registry)
        ensures
            r.wf(),
            r.limits() == config,
            r.records() == Records::empty(),
            r.log() == Seq::<EventView>::empty(),
    {
        let r = Registry { config, store: VehicleStore::new(config.max_vehicles), events: Vec::new() };
        assert(r.log() =~= Seq::<EventView>::empty());
        r
    }

    /// The limits the registry was assembled with.
    pub fn config(&self) -> (r: Config)
        ensures
            r == self.limits(),
    {
        self.config
    }

    /// The number of records held.
    pub fn count(&self) -> (r: usize)
        requires
            self.wf(),
        ensures
            r == self.records().dom().len(),
    {
        self.store.len()
    }

    /// The event log, oldest first.
    pub fn events(&self) -> (r: &Vec<Event>)
        ensures
            r@.map_values(|e: Event| e@) == self.log(),
    {
        &self.events
    }

    /// The record registered under `key`, if any.
    pub fn get(&self, key: &[u8]) -> (r: Option<&VehicleRecord>)
        requires
            self.wf(),
        ensures
            r is Some <==> self.records().contains_key(key@),
            r matches Some(rec) ==> rec@ == self.records()[key@],
    {
        self.store.get(key)
    }

    /// Whether a record is registered under `key`.
    pub fn contains(&self, key: &[u8]) -> (r: bool)
        requires
            self.wf(),
        ensures
            r == self.records().contains_key(key@),
    {
        self.store.contains_key(key)
    }

    fn log_event(&mut self, e: Event)
        ensures
            final(self).log() == old(self).log().push(e@),
            final(self).records() == old(self).records(),
            final(self).limits() == old(self).limits(),
            final(self).wf() == old(self).wf(),
    {
        let ghost before = self.log();
        self.events.push(e);
        assert(self.log() =~= before.push(e@));
    }

    /// Registers a vehicle under its VIN, which becomes its key and is
    /// returned. Fails with `TooLong` if a field exceeds its bound (the VIN is
    /// held both to `max_vin_length` and to `vin_prefix`), then with
    /// `DuplicateVin` if the VIN is registered, then with `RegistryFull` if
    /// `max_vehicles` records are held. On success the record is stored and a
    /// `VehicleRegistered` event is logged; on failure nothing changes.
    pub fn register(&mut self, vin: &[u8], manufacturer: &[u8], model: &[u8], identifiers: &Vec<Vec<u8>>) -> (r: Result<Vec<u8>, RegistryError>)
        requires
            old(self).wf(),
        ensures
            final(self).wf(),
            final(self).limits() == old(self).limits(),
            final(self).records() == register_next(old(self).limits(), old(self).records(), vin@, manufacturer@, model@, raw_view(identifiers@)),
            register_error(old(self).limits(), old(self).records(), vin@, manufacturer@, model@, raw_view(identifiers@)) matches Some(e)
                ==> r == Err::<Vec<u8>, RegistryError>(e) && final(self).log() == old(self).log(),
            register_error(old(self).limits(), old(self).records(), vin@, manufacturer@, model@, raw_view(identifiers@)) is None
                ==> (r matches Ok(k) && k@ == vin@) && final(self).log() == old(self).log().push(EventView::Registered(vin@)),
            r is Ok ==> final(self).records().dom().len() == old(self).records().dom().len() + 1,
    {
        let ghost c = self.config;
        let ghost ids = raw_view(identifiers@);
        proof { self.store.lemma_count(); }
        if vin.len() as u64 > self.config.vin_prefix as u64 {
            return Err(RegistryError::TooLong);
        }
        let vin_value = match bind(vin, self.config.max_vin_length) {
            Ok(v) => v,
            Err(_) => return Err(RegistryError::TooLong),
        };
        let manufacturer_value = match bind(manufacturer, self.config.max_manufacturer_length) {
            Ok(v) => v,
            Err(_) => return Err(RegistryError::TooLong),
        };
        let model_value = match bind(model, self.config.max_model_length) {
            Ok(v) => v,
            Err(_) => return Err(RegistryError::TooLong),
        };
        if !all_fit(identifiers, self.config.max_identifier_length) {
            return Err(RegistryError::TooLong);
        }
        if self.store.contains_key(vin) {
            return Err(RegistryError::DuplicateVin);
        }
        if self.store.len() as u64 >= self.config.max_vehicles as u64 {
            return Err(RegistryError::RegistryFull);
        }
        let id_values = add_values(Vec::new(), identifiers, self.config.max_identifier_length);
        let record = VehicleRecord {
            vin: vin_value,
            manufacturer: manufacturer_value,
            model: model_value,
            identifiers: id_values,
        };
        let ghost rec = record@;
        proof {
            assert(values_view(Seq::<BoundedValue>::empty()) =~= Seq::<Seq<u8>>::empty());
            assert(rec == new_record(vin@, manufacturer@, model@, ids));
            lemma_add_all(seq![], ids);
            assert(Seq::<Seq<u8>>::empty().no_duplicates());
            assert forall|j: int| 0 <= j < rec.identifiers.len() implies (#[trigger] rec.identifiers[j]).len() <= c.max_identifier_length by {
                assert(rec.identifiers.contains(rec.identifiers[j]));
                let k = choose|k: int| 0 <= k < ids.len() && ids[k] == rec.identifiers[j];
                assert(ids[k].len() <= c.max_identifier_length);
            }
            assert(fits(c, rec));
        }
        let inserted = self.store.insert(vin, record);
        assert(inserted is Ok);
        proof { self.store.lemma_count(); }
        self.log_event(Event::VehicleRegistered { key: copy_bytes(vin) });
        Ok(copy_bytes(vin))
    }

    /// Updates the identifiers of the record under `key`: each of `remove`
    /// that it holds is taken out, then each of `add` that it lacks is put in
    /// at the end. Fails with `NotFound` if no record is under `key`, then
    /// with `TooLong` if an identifier to add exceeds `max_identifier_length`.
    /// On success a `VehicleUpdated` event is logged; on failure nothing
    /// changes.
    pub fn update_identifiers(&mut self, key: &[u8], add: Vec<Vec<u8>>, remove: Vec<Vec<u8>>) -> (r: Result<(), RegistryError>)
        requires
            old(self).wf(),
        ensures
            final(self).wf(),
            final(self).limits() == old(self).limits(),
            final(self).records() == update_next(old(self).limits(), old(self).records(), key@, raw_view(add@), raw_view(remove@)),
            update_error(old(self).limits(), old(self).records(), key@, raw_view(add@)) matches Some(e)
                ==> r == Err::<(), RegistryError>(e) && final(self).log() == old(self).log(),
            update_error(old(self).limits(), old(self).records(), key@, raw_view(add@)) is None
                ==> r is Ok && final(self).log() == old(self).log().push(EventView::Updated(key@, ChangeView::Identifiers(raw_view(add@), raw_view(remove@)))),
    {
        let ghost c = self.config;
        let ghost addv = raw_view(add@);
        let ghost rmv = raw_view(remove@);
        let record = match self.store.get(key) {
            Some(rec) => rec,
            None => return Err(RegistryError::NotFound),
        };
        if !all_fit(&add, self.config.max_identifier_length) {
            return Err(RegistryError::TooLong);
        }
        let ghost old_rec = record@;
        let kept = remove_values(&record.identifiers, &remove);
        let ghost kept_v = values_view(kept@);
        let id_values = add_values(kept, &add, self.config.max_identifier_length);
        let updated = VehicleRecord {
            vin: record.vin.duplicate(),
            manufacturer: record.manufacturer.duplicate(),
            model: record.model.duplicate(),
            identifiers: id_values,
        };
        let ghost rec = updated@;
        proof {
            assert(fits(c, old_rec));
            lemma_without(old_rec.identifiers, rmv);
            lemma_add_all(kept_v, addv);
            assert(rec.identifiers == update_ids(old_rec.identifiers, addv, rmv));
            assert forall|j: int| 0 <= j < rec.identifiers.len() implies (#[trigger] rec.identifiers[j]).len() <= c.max_identifier_length by {
                let x = rec.identifiers[j];
                assert(rec.identifiers.contains(x));
                if addv.contains(x) {
                    let k = choose|k: int| 0 <= k < addv.len() && addv[k] == x;
                    assert(addv[k].len() <= c.max_identifier_length);
                } else {
                    assert(old_rec.identifiers.contains(x));
                    let k = choose|k: int| 0 <= k < old_rec.identifiers.len() && old_rec.identifiers[k] == x;
                    assert(old_rec.identifiers[k].len() <= c.max_identifier_length);
                }
            }
            assert(fits(c, rec));
            assert(rec == RecordView { identifiers: update_ids(old_rec.identifiers, addv, rmv), ..old_rec });
        }
        let replaced = self.store.update(key, updated);
        assert(replaced is Ok);
        self.log_event(Event::VehicleUpdated {
            key: copy_bytes(key),
            change: Change::Identifiers { added: add, removed: remove },
        });
        Ok(())
    }

    /// Sets the manufacturer and model of the record under `key`, keeping its
    /// VIN and identifiers. Fails with `NotFound` if no record is under `key`,
    /// then with `TooLong` if either value exceeds its bound. On success a
    /// `VehicleUpdated` event is logged; on failure nothing changes.
    pub fn correct_details(&mut self, key: &[u8], manufacturer: &[u8], model: &[u8]) -> (r: Result<(), RegistryError>)
        requires
            old(self).wf(),
        ensures
            final(self).wf(),
            final(self).limits() == old(self).limits(),
            final(self).records() == correct_next(old(self).limits(), old(self).records(), key@, manufacturer@, model@),
            correct_error(old(self).limits(), old(self).records(), key@, manufacturer@, model@) matches Some(e)
                ==> r == Err::<(), RegistryError>(e) && final(self).log() == old(self).log(),
            correct_error(old(self).limits(), old(self).records(), key@, manufacturer@, model@) is None
                ==> r is Ok && final(self).log() == old(self).log().push(EventView::Updated(key@, ChangeView::Details(manufacturer@, model@))),
    {
        let ghost c = self.config;
        let ghost before = self.store@;
        if !self.store.contains_key(key) {
            return Err(RegistryError::NotFound);
        }
        let manufacturer_value = match bind(manufacturer, self.config.max_manufacturer_length) {
            Ok(v) => v,
            Err(_) => return Err(RegistryError::TooLong),
        };
        let model_value = match bind(model, self.config.max_model_length) {
            Ok(v) => v,
            Err(_) => return Err(RegistryError::TooLong),
        };
        proof { self.store.lemma_count(); }
        let mut record = match self.store.remove(key) {
            Ok(rec) => rec,
            Err(_) => return Err(RegistryError::NotFound),
        };
        proof { self.store.lemma_count(); }
        record.manufacturer = manufacturer_value;
        record.model = model_value;
        let ghost rec = record@;
        assert(fits(c, rec)) by {
            assert(fits(c, before[key@]));
        }
        let inserted = self.store.insert(key, record);
        assert(inserted is Ok);
        assert(self.store@ =~= before.insert(key@, rec));
        self.log_event(Event::VehicleUpdated {
            key: copy_bytes(key),
            change: Change::Details { manufacturer: copy_bytes(manufacturer), model: copy_bytes(model) },
        });
        Ok(())
    }

    /// Removes the record under `key`. Fails with `NotFound` if there is
    /// none. On success a `VehicleDeregistered` event is logged; on failure
    /// nothing changes.
    pub fn deregister(&mut self, key: &[u8]) -> (r: Result<(), RegistryError>)
        requires
            old(self).wf(),
        ensures
            final(self).wf(),
            final(self).limits() == old(self).limits(),
            !old(self).records().contains_key(key@) ==> r == Err::<(), RegistryError>(RegistryError::NotFound)
                && final(self).records() == old(self).records() && final(self).log() == old(self).log(),
            old(self).records().contains_key(key@) ==> r is Ok
                && final(self).records() == deregister_next(old(self).records(), key@)
                && final(self).log() == old(self).log().push(EventView::Deregistered(key@)),
    {
        match self.store.remove(key) {
            Err(_) => Err(RegistryError::NotFound),
            Ok(_) => {
                self.log_event(Event::VehicleDeregistered { key: copy_bytes(key) });
                Ok(())
            },
        }
    }
}

} // verus!
