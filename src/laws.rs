//! Properties that relate several registry transitions.
use vstd::prelude::*;

use crate::config::Config;
use crate::record::{lemma_add_all_to_empty, RecordView};
use crate::registry::{
    deregister_next, fields_fit, register_error, register_next, update_next, Records, RegistryError,
};

verus! {

/// A successful registration adds exactly one record, and the record stored
/// under the VIN is the one submitted (its identifiers given without repeats).
pub proof fn lemma_register_adds_submitted(
    c: Config,
    recs: Records,
    vin: Seq<u8>,
    manufacturer: Seq<u8>,
    model: Seq<u8>,
    ids: Seq<Seq<u8>>,
)
    requires
        recs.dom().finite(),
        register_error(c, recs, vin, manufacturer, model, ids) is None,
        ids.no_duplicates(),
    ensures
        register_next(c, recs, vin, manufacturer, model, ids).dom().len() == recs.dom().len() + 1,
        register_next(c, recs, vin, manufacturer, model, ids).contains_key(vin),
        register_next(c, recs, vin, manufacturer, model, ids)[vin]
            == (RecordView { vin, manufacturer, model, identifiers: ids }),
{
    lemma_add_all_to_empty(ids);
}

/// Once a VIN is registered, registering it again, with fields that fit,
/// fails with `DuplicateVin` and leaves the records as they were.
pub proof fn lemma_duplicate_vin(
    c: Config,
    recs: Records,
    vin: Seq<u8>,
    manufacturer: Seq<u8>,
    model: Seq<u8>,
    ids: Seq<Seq<u8>>,
    manufacturer2: Seq<u8>,
    model2: Seq<u8>,
    ids2: Seq<Seq<u8>>,
)
    requires
        register_error(c, recs, vin, manufacturer, model, ids) is None,
        fields_fit(c, vin, manufacturer2, model2, ids2),
    ensures
        ({
            let after = register_next(c, recs, vin, manufacturer, model, ids);
            &&& register_error(c, after, vin, manufacturer2, model2, ids2) == Some(RegistryError::DuplicateVin)
            &&& register_next(c, after, vin, manufacturer2, model2, ids2) == after
        }),
{
}

/// A registry holding `max_vehicles` records rejects a new VIN with fields
/// that fit with `RegistryFull`, and leaves the records as they were.
pub proof fn lemma_full_registry(
    c: Config,
    recs: Records,
    vin: Seq<u8>,
    manufacturer: Seq<u8>,
    model: Seq<u8>,
    ids: Seq<Seq<u8>>,
)
    requires
        recs.dom().len() == c.max_vehicles,
        fields_fit(c, vin, manufacturer, model, ids),
        !recs.contains_key(vin),
    ensures
        register_error(c, recs, vin, manufacturer, model, ids) == Some(RegistryError::RegistryFull),
        register_next(c, recs, vin, manufacturer, model, ids) == recs,
{
}

/// Registering a vehicle, updating its identifiers and deregistering it
/// leaves the records exactly as they were before, with nothing under its VIN.
pub proof fn lemma_round_trip(
    c: Config,
    recs: Records,
    vin: Seq<u8>,
    manufacturer: Seq<u8>,
    model: Seq<u8>,
    ids: Seq<Seq<u8>>,
    add: Seq<Seq<u8>>,
    rm: Seq<Seq<u8>>,
)
    requires
        register_error(c, recs, vin, manufacturer, model, ids) is None,
    ensures
        ({
            let registered = register_next(c, recs, vin, manufacturer, model, ids);
            let updated = update_next(c, registered, vin, add, rm);
            let removed = deregister_next(updated, vin);
            &&& !removed.contains_key(vin)
            &&& removed == recs
        }),
{
    let registered = register_next(c, recs, vin, manufacturer, model, ids);
    let updated = update_next(c, registered, vin, add, rm);
    assert(deregister_next(updated, vin) =~= recs);
}

} // verus!
