//! The ship-log engine: the identifiers and entries found in the ship-log
//! documents of a project, and the rules that they have to meet.

use vstd::prelude::*;
use crate::diagnostics::{DocumentId, DocumentIdView, Range};
use crate::systems::MVector2;
use crate::text::views;
use crate::text_map::{TextMap, TextMapView};

pub mod baseline;
pub mod checks;
pub mod declaration_laws;
pub mod harvest;
pub mod laws;
pub mod lookup;
pub mod parse;
pub mod validator;

pub use crate::ship_log::validator::ShipLogValidator;

verus! {

/// The document that an identifier was found in.
pub type ShipLogFile = DocumentId;

/// One occurrence of an identifier in a ship-log document.
#[derive(Debug)]
pub struct ID {
    pub value: String,
    pub source_file: ShipLogFile,
    pub range: Range,
}

/// What an `ID` holds.
pub struct IdView {
    pub value: Seq<char>,
    pub source_file: DocumentIdView,
    pub range: Range,
}

impl View for ID {
    type V = IdView;

    open spec fn view(&self) -> IdView {
        IdView { value: self.value@, source_file: self.source_file@, range: self.range }
    }
}

pub type IdSet = Vec<ID>;

/// A point of the ship-log map, each coordinate by the bits of its float.
pub type Vector2 = MVector2;

/// One entry of the ship log.
#[derive(Debug)]
pub struct ShipLogEntry {
    pub id: String,
    pub astro_object: String,
    pub position: Option<Vector2>,
    pub name: String,
    pub parent: Option<String>,
    pub is_curiosity: bool,
    pub sources: Vec<String>,
    pub curiosity: Option<String>,
}

/// What a `ShipLogEntry` holds.
pub struct EntryView {
    pub id: Seq<char>,
    pub astro_object: Seq<char>,
    pub position: Option<Vector2>,
    pub name: Seq<char>,
    pub parent: Option<Seq<char>>,
    pub is_curiosity: bool,
    pub sources: Seq<Seq<char>>,
    pub curiosity: Option<Seq<char>>,
}

impl View for ShipLogEntry {
    type V = EntryView;

    open spec fn view(&self) -> EntryView {
        EntryView {
            id: self.id@,
            astro_object: self.astro_object@,
            position: self.position,
            name: self.name@,
            parent: crate::xml::opt_text(self.parent),
            is_curiosity: self.is_curiosity,
            sources: views(self.sources@),
            curiosity: crate::xml::opt_text(self.curiosity),
        }
    }
}

/// What the ship-log documents and configs of a project hold, gathered.
#[derive(Debug)]
pub struct ShipLogContext {
    /// The identifiers of the astro objects, as they were declared.
    pub astro_object_ids: IdSet,
    /// The identifiers of the entries, as they were declared.
    pub entry_ids: IdSet,
    /// The entries by identifier.
    pub entries: TextMap<ShipLogEntry>,
    /// Where each entry stands on the map, by identifier.
    pub position_map: TextMap<Vector2>,
    /// The identifiers of the facts, as they were declared.
    pub fact_ids: IdSet,
    /// The ship-log documents of each star system, by their paths below the
    /// project root.
    pub system_to_relative_path: TextMap<Vec<String>>,
    /// The astro object that each ship-log document declares, by the
    /// document's path below the project root.
    pub relative_to_astro_object: TextMap<String>,
    /// The curiosities that entries refer to.
    pub curiosity_references: IdSet,
    /// The entries that facts name as their source.
    pub source_id_references: IdSet,
}

/// What a `ShipLogContext` holds.
pub struct ShipLogContextView {
    pub astro_object_ids: Seq<IdView>,
    pub entry_ids: Seq<IdView>,
    pub entries: TextMapView<EntryView>,
    pub position_map: TextMapView<Vector2>,
    pub fact_ids: Seq<IdView>,
    pub system_to_relative_path: TextMapView<Seq<Seq<char>>>,
    pub relative_to_astro_object: TextMapView<Seq<char>>,
    pub curiosity_references: Seq<IdView>,
    pub source_id_references: Seq<IdView>,
}

/// The texts of each of some lists of strings.
pub open spec fn path_lists(lists: Seq<Vec<String>>) -> Seq<Seq<Seq<char>>> {
    Seq::new(lists.len(), |i: int| views(lists[i]@))
}

impl View for ShipLogContext {
    type V = ShipLogContextView;

    open spec fn view(&self) -> ShipLogContextView {
        ShipLogContextView {
            astro_object_ids: views(self.astro_object_ids@),
            entry_ids: views(self.entry_ids@),
            entries: self.entries.deep_model(),
            position_map: self.position_map.model(),
            fact_ids: views(self.fact_ids@),
            system_to_relative_path: TextMapView {
                keys: views(self.system_to_relative_path.keys@),
                values: path_lists(self.system_to_relative_path.values@),
            },
            relative_to_astro_object: self.relative_to_astro_object.deep_model(),
            curiosity_references: views(self.curiosity_references@),
            source_id_references: views(self.source_id_references@),
        }
    }
}

impl ShipLogContextView {
    /// Every map has a value for each key and no key twice.
    pub open spec fn wf(self) -> bool {
        &&& self.entries.wf()
        &&& self.position_map.wf()
        &&& self.system_to_relative_path.wf()
        &&& self.relative_to_astro_object.wf()
    }

    /// The context that holds nothing.
    pub open spec fn empty() -> ShipLogContextView {
        ShipLogContextView {
            astro_object_ids: Seq::empty(),
            entry_ids: Seq::empty(),
            entries: TextMapView { keys: Seq::empty(), values: Seq::empty() },
            position_map: TextMapView { keys: Seq::empty(), values: Seq::empty() },
            fact_ids: Seq::empty(),
            system_to_relative_path: TextMapView { keys: Seq::empty(), values: Seq::empty() },
            relative_to_astro_object: TextMapView { keys: Seq::empty(), values: Seq::empty() },
            curiosity_references: Seq::empty(),
            source_id_references: Seq::empty(),
        }
    }
}

impl Default for ShipLogContext {
    /// A context that holds nothing.
    fn default() -> (r: Self)
        ensures
            r.wf(),
            r@ == ShipLogContextView::empty(),
    {
        ShipLogContext::new()
    }
}

impl Default for ShipLogEntry {
    /// An entry of which nothing is known.
    fn default() -> (r: Self)
        ensures
            r@ == (EntryView {
                id: Seq::empty(),
                astro_object: Seq::empty(),
                position: None,
                name: Seq::empty(),
                parent: None,
                is_curiosity: false,
                sources: Seq::empty(),
                curiosity: None,
            }),
    {
        let r = ShipLogEntry {
            id: String::new(),
            astro_object: String::new(),
            position: None,
            name: String::new(),
            parent: None,
            is_curiosity: false,
            sources: Vec::new(),
            curiosity: None,
        };
        assert(r@.sources =~= Seq::empty());
        r
    }
}

impl ShipLogContext {
    /// Every map has a value for each key and no key twice.
    pub open spec fn wf(&self) -> bool {
        &&& self.entries.wf()
        &&& self.position_map.wf()
        &&& self.system_to_relative_path.wf()
        &&& self.relative_to_astro_object.wf()
    }

    /// A context that holds nothing.
    pub fn new() -> (r: Self)
        ensures
            r.wf(),
            r@ == ShipLogContextView::empty(),
    {
        let r = ShipLogContext {
            astro_object_ids: Vec::new(),
            entry_ids: Vec::new(),
            entries: TextMap::new(),
            position_map: TextMap::new(),
            fact_ids: Vec::new(),
            system_to_relative_path: TextMap::new(),
            relative_to_astro_object: TextMap::new(),
            curiosity_references: Vec::new(),
            source_id_references: Vec::new(),
        };
        assert(r@.astro_object_ids =~= Seq::empty());
        assert(r@.entry_ids =~= Seq::empty());
        assert(r@.fact_ids =~= Seq::empty());
        assert(r@.curiosity_references =~= Seq::empty());
        assert(r@.source_id_references =~= Seq::empty());
        assert(r@.entries.keys =~= Seq::empty());
        assert(r@.entries.values =~= Seq::empty());
        assert(r@.position_map.keys =~= Seq::empty());
        assert(r@.position_map.values =~= Seq::empty());
        assert(r@.system_to_relative_path.keys =~= Seq::empty());
        assert(r@.system_to_relative_path.values =~= Seq::empty());
        assert(r@.relative_to_astro_object.keys =~= Seq::empty());
        assert(r@.relative_to_astro_object.values =~= Seq::empty());
        r
    }
}

} // verus!
