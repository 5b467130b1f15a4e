//! The part of a planet config that the ship-log engine reads.

use vstd::prelude::*;
use vstd::string::*;

verus! {

/// The `ShipLog` module of a planet config.
#[derive(Debug)]
pub struct ShipLogModule {
    /// Path of the ship-log document, relative to the project root.
    pub xml_file: Option<String>,
}

/// The star system of a planet config that names none.
pub open spec fn default_star_system_name() -> Seq<char> {
    "SolarSystem"@
}

/// The name of the star system that a planet belongs to when its config does
/// not say.
pub fn default_star_system() -> (r: String)
    ensures
        r@ == default_star_system_name(),
{
    String::from_str("SolarSystem")
}

/// A planet config, as far as the ship-log engine reads it.
#[allow(non_snake_case)]
#[derive(Debug)]
pub struct Planet {
    pub name: String,
    pub starSystem: String,
    pub ShipLog: Option<ShipLogModule>,
}

} // verus!
