use vstd::prelude::*;

verus! {

/// The limits a registry is assembled with. They never change afterwards.
#[derive(Clone, Copy, Debug, PartialEq, Eq, Structural)]
pub struct Config {
    /// Longest VIN accepted.
    pub max_vin_length: u32,
    /// Longest manufacturer name accepted.
    pub max_manufacturer_length: u32,
    /// Longest model name accepted.
    pub max_model_length: u32,
    /// Longest identifier accepted.
    pub max_identifier_length: u32,
    /// Most records the registry holds at once.
    pub max_vehicles: u32,
    /// Longest vehicle key accepted; the key of a record is its VIN.
    pub vin_prefix: u32,
}

impl Config {
    /// A configuration with the given limits.
    pub fn new(
        max_vin_length: u32,
        max_manufacturer_length: u32,
        max_model_length: u32,
        max_identifier_length: u32,
        max_vehicles: u32,
        vin_prefix: u32,
    ) -> (r: Config)
        ensures
            r == (Config {
                max_vin_length,
                max_manufacturer_length,
                max_model_length,
                max_identifier_length,
                max_vehicles,
                vin_prefix,
            }),
    {
        Config {
            max_vin_length,
            max_manufacturer_length,
            max_model_length,
            max_identifier_length,
            max_vehicles,
            vin_prefix,
        }
    }
}

impl Default for Config {
    /// Every length limited to 32 bytes, and room for 100000 vehicles.
    fn default() -> (r: Config)
        ensures
            r == (Config {
                max_vin_length: 32,
                max_manufacturer_length: 32,
                max_model_length: 32,
                max_identifier_length: 32,
                max_vehicles: 100000,
                vin_prefix: 32,
            }),
    {
        Config::new(32, 32, 32, 32, 100000, 32)
    }
}

} // verus!
