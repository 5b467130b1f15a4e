//! The base game's part of the ship log: the identifiers that it has taken
//! and the entries that it brings.

use vstd::prelude::*;
use vstd::string::*;
use crate::ship_log::{EntryView, ShipLogEntry};
use crate::text::{holds_text, same_text, views};

verus! {

/// The catalogue of the base game.
#[derive(Debug)]
pub struct Baseline {
    /// The identifiers of the base game's entries.
    pub entry_ids: Vec<String>,
    /// The identifiers of the base game's facts.
    pub fact_ids: Vec<String>,
    /// The base game's entries.
    pub entries: Vec<ShipLogEntry>,
}

/// What a `Baseline` holds.
pub struct BaselineView {
    pub entry_ids: Seq<Seq<char>>,
    pub fact_ids: Seq<Seq<char>>,
    pub entries: Seq<EntryView>,
}

impl View for Baseline {
    type V = BaselineView;

    open spec fn view(&self) -> BaselineView {
        BaselineView {
            entry_ids: views(self.entry_ids@),
            fact_ids: views(self.fact_ids@),
            entries: views(self.entries@),
        }
    }
}

/// The astro objects of the base game.
pub open spec fn vanilla_astro_objects() -> Seq<Seq<char>> {
    seq![
        "SUN_STATION"@,
        "CAVE_TWIN"@,
        "TOWER_TWIN"@,
        "TIMBER_HEARTH"@,
        "TIMBER_MOON"@,
        "BRITTLE_HOLLOW"@,
        "VOLCANIC_MOON"@,
        "GIANTS_DEEP"@,
        "ORBITAL_PROBE_CANNON"@,
        "DARK_BRAMBLE"@,
        "WHITE_HOLE"@,
        "COMET"@,
        "QUANTUM_MOON"@,
        "INVISIBLE_PLANET"@,
    ]
}

/// The curiosities of the base game.
pub open spec fn known_curiosities() -> Seq<Seq<char>> {
    seq![
        "None"@,
        "QuantumMoon"@,
        "SunkenModule"@,
        "Vessel"@,
        "TimeLoop"@,
        "CometCore"@,
        "InvisiblePlanet"@,
    ]
}

/// Whether `value` is an astro object of the base game.
pub fn is_vanilla_astro_object(value: &str) -> (r: bool)
    ensures
        r == holds_text(vanilla_astro_objects(), value@),
{
    let r = same_text(value, "SUN_STATION") || same_text(value, "CAVE_TWIN") || same_text(
        value,
        "TOWER_TWIN",
    ) || same_text(value, "TIMBER_HEARTH") || same_text(value, "TIMBER_MOON") || same_text(
        value,
        "BRITTLE_HOLLOW",
    ) || same_text(value, "VOLCANIC_MOON") || same_text(value, "GIANTS_DEEP") || same_text(
        value,
        "ORBITAL_PROBE_CANNON",
    ) || same_text(value, "DARK_BRAMBLE") || same_text(value, "WHITE_HOLE") || same_text(
        value,
        "COMET",
    ) || same_text(value, "QUANTUM_MOON") || same_text(value, "INVISIBLE_PLANET");
    proof {
        let all = vanilla_astro_objects();
        assert(all[0] == "SUN_STATION"@ && all[1] == "CAVE_TWIN"@ && all[2] == "TOWER_TWIN"@
            && all[3] == "TIMBER_HEARTH"@ && all[4] == "TIMBER_MOON"@ && all[5]
            == "BRITTLE_HOLLOW"@ && all[6] == "VOLCANIC_MOON"@ && all[7] == "GIANTS_DEEP"@
            && all[8] == "ORBITAL_PROBE_CANNON"@ && all[9] == "DARK_BRAMBLE"@ && all[10]
            == "WHITE_HOLE"@ && all[11] == "COMET"@ && all[12] == "QUANTUM_MOON"@ && all[13]
            == "INVISIBLE_PLANET"@);
    }
    r
}

/// Whether `value` is a curiosity of the base game.
pub fn is_known_curiosity(value: &str) -> (r: bool)
    ensures
        r == holds_text(known_curiosities(), value@),
{
    let r = same_text(value, "None") || same_text(value, "QuantumMoon") || same_text(
        value,
        "SunkenModule",
    ) || same_text(value, "Vessel") || same_text(value, "TimeLoop") || same_text(
        value,
        "CometCore",
    ) || same_text(value, "InvisiblePlanet");
    proof {
        let all = known_curiosities();
        assert(all[0] == "None"@ && all[1] == "QuantumMoon"@ && all[2] == "SunkenModule"@
            && all[3] == "Vessel"@ && all[4] == "TimeLoop"@ && all[5] == "CometCore"@ && all[6]
            == "InvisiblePlanet"@);
    }
    r
}

} // verus!
