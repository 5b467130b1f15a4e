//! What a ship-log document yields: the identifiers it declares, the
//! references it makes and the entries it describes.
//!
//! A document declares one astro object, in the first element named
//! `AstroObjectEntry`. Its `Entry` children describe entries, and an entry may
//! hold further `Entry` elements, whose parent it then is.
//!
//! The astro object and each entry are known by the identifier that they
//! declare last among their `ID` children. That identifier is theirs wherever
//! it stands: an entry belongs to the astro object of its document, and has
//! the entry that holds it as its parent, also where it stands before their
//! `ID`.

use vstd::prelude::*;
use crate::diagnostics::DocumentIdView;
use crate::ship_log::{EntryView, IdView, ShipLogContextView, Vector2};
use crate::text_map::TextMapView;
use crate::utils::xml_diag_range;
use crate::xml::XmlNodeView;

verus! {

/// What a part of a document yields, in the order of the document.
pub struct Harvest {
    pub entry_ids: Seq<IdView>,
    pub fact_ids: Seq<IdView>,
    pub curiosity_references: Seq<IdView>,
    pub source_id_references: Seq<IdView>,
    /// The entries, each behind the entries that it holds.
    pub entries: Seq<EntryView>,
}

impl Harvest {
    /// Nothing.
    pub open spec fn empty() -> Harvest {
        Harvest {
            entry_ids: Seq::empty(),
            fact_ids: Seq::empty(),
            curiosity_references: Seq::empty(),
            source_id_references: Seq::empty(),
            entries: Seq::empty(),
        }
    }

    /// What `self` yields, then what `other` yields.
    pub open spec fn join(self, other: Harvest) -> Harvest {
        Harvest {
            entry_ids: self.entry_ids + other.entry_ids,
            fact_ids: self.fact_ids + other.fact_ids,
            curiosity_references: self.curiosity_references + other.curiosity_references,
            source_id_references: self.source_id_references + other.source_id_references,
            entries: self.entries + other.entries,
        }
    }
}

/// The map with each of `entries` put under its identifier, one after the
/// other: a later entry takes the place of an earlier one with its identifier.
pub open spec fn upsert_all(map: TextMapView<EntryView>, entries: Seq<EntryView>) -> TextMapView<
    EntryView,
>
    decreases entries.len(),
{
    if entries.len() == 0 {
        map
    } else {
        upsert_all(map, entries.drop_last()).upsert(entries.last().id, entries.last())
    }
}

impl ShipLogContextView {
    /// The context after it took in `harvest`: the identifiers and references
    /// behind those it held, the entries put under their identifiers.
    pub open spec fn absorb(self, harvest: Harvest) -> ShipLogContextView {
        ShipLogContextView {
            entry_ids: self.entry_ids + harvest.entry_ids,
            fact_ids: self.fact_ids + harvest.fact_ids,
            curiosity_references: self.curiosity_references + harvest.curiosity_references,
            source_id_references: self.source_id_references + harvest.source_id_references,
            entries: upsert_all(self.entries, harvest.entries),
            ..self
        }
    }
}

/// Putting in one list of entries and then another is putting in the two,
/// joined.
pub proof fn lemma_upsert_all_join(
    map: TextMapView<EntryView>,
    first: Seq<EntryView>,
    second: Seq<EntryView>,
)
    ensures
        upsert_all(upsert_all(map, first), second) == upsert_all(map, first + second),
    decreases second.len(),
{
    if second.len() == 0 {
        assert(first + second =~= first);
    } else {
        lemma_upsert_all_join(map, first, second.drop_last());
        assert((first + second).drop_last() =~= first + second.drop_last());
        assert((first + second).last() == second.last());
    }
}

/// Taking in one harvest and then another is taking in the two, joined.
pub proof fn lemma_absorb_join(ctx: ShipLogContextView, first: Harvest, second: Harvest)
    ensures
        ctx.absorb(first).absorb(second) == ctx.absorb(first.join(second)),
{
    lemma_upsert_all_join(ctx.entries, first.entries, second.entries);
    let a = ctx.absorb(first).absorb(second);
    let b = ctx.absorb(first.join(second));
    assert(a.entry_ids =~= b.entry_ids);
    assert(a.fact_ids =~= b.fact_ids);
    assert(a.curiosity_references =~= b.curiosity_references);
    assert(a.source_id_references =~= b.source_id_references);
}

/// Taking in nothing changes nothing.
pub proof fn lemma_absorb_empty(ctx: ShipLogContextView)
    ensures
        ctx.absorb(Harvest::empty()) == ctx,
{
    let a = ctx.absorb(Harvest::empty());
    assert(a.entry_ids =~= ctx.entry_ids);
    assert(a.fact_ids =~= ctx.fact_ids);
    assert(a.curiosity_references =~= ctx.curiosity_references);
    assert(a.source_id_references =~= ctx.source_id_references);
}

/// The text of a node, empty where it has none.
pub open spec fn node_text(node: XmlNodeView) -> Seq<char> {
    match node.text {
        Some(t) => t,
        None => Seq::empty(),
    }
}

/// The identifier that a node of the document `file` holds: its text, at its
/// place.
pub open spec fn id_of_node(node: XmlNodeView, file: DocumentIdView) -> IdView {
    IdView { value: node_text(node), source_file: file, range: xml_diag_range(node.start, node.end) }
}

/// Whether node `j` is a child of node `parent` and an element.
pub open spec fn is_element_child(nodes: Seq<XmlNodeView>, parent: int, j: int) -> bool {
    &&& 0 <= parent < j < nodes.len()
    &&& nodes[j].element
    &&& nodes[j].parent == Some(parent as usize)
}

/// The first child of node `parent`, at or behind index `from`, with the tag
/// name `name`.
pub open spec fn find_child_named(nodes: Seq<XmlNodeView>, parent: int, name: Seq<char>, from: int)
    -> Option<int>
    decreases nodes.len() - from,
{
    if from < 0 || from >= nodes.len() {
        None
    } else if nodes[from].parent == Some(parent as usize) && nodes[from].name == name {
        Some(from)
    } else {
        find_child_named(nodes, parent, name, from + 1)
    }
}

/// The first node, at or behind index `from`, with the tag name `name`.
pub open spec fn find_named(nodes: Seq<XmlNodeView>, name: Seq<char>, from: int) -> Option<int>
    decreases nodes.len() - from,
{
    if from < 0 || from >= nodes.len() {
        None
    } else if nodes[from].name == name {
        Some(from)
    } else {
        find_named(nodes, name, from + 1)
    }
}

/// The text of the last element child of node `parent` with an index below
/// `upto` that is named `ID`; `None` where it has no such child.
pub open spec fn declared_id(nodes: Seq<XmlNodeView>, parent: int, upto: int) -> Option<Seq<char>>
    decreases upto,
{
    if parent < 0 || upto <= parent + 1 || upto > nodes.len() {
        None
    } else if is_element_child(nodes, parent, upto - 1) && nodes[upto - 1].name == "ID"@ {
        Some(node_text(nodes[upto - 1]))
    } else {
        declared_id(nodes, parent, upto - 1)
    }
}

/// The identifier of the element `element`: the one that it declares last,
/// and the empty text where it declares none.
pub open spec fn id_of_element(nodes: Seq<XmlNodeView>, element: int) -> Seq<char> {
    match declared_id(nodes, element, nodes.len() as int) {
        Some(id) => id,
        None => Seq::empty(),
    }
}

/// An entry with the identifier `id`, of the astro object `astro_object` and
/// below `parent`, of which nothing else is known yet.
pub open spec fn new_draft(id: Seq<char>, astro_object: Seq<char>, parent: Option<Seq<char>>)
    -> EntryView {
    EntryView {
        id,
        astro_object,
        position: None,
        name: Seq::empty(),
        parent,
        is_curiosity: false,
        sources: Seq::empty(),
        curiosity: None,
    }
}

/// The name of an entry that has none.
pub open spec fn unnamed() -> Seq<char> {
    "UNNAMED"@
}

/// The entry as it is kept: at its place on the map, and with a name.
pub open spec fn finished(draft: EntryView, positions: TextMapView<Vector2>) -> EntryView {
    EntryView {
        position: positions.lookup(draft.id),
        name: if draft.name.len() == 0 {
            unnamed()
        } else {
            draft.name
        },
        ..draft
    }
}

/// What the fact element `fact` yields, and the sources of the entry after it:
/// the identifier of the fact from its first `ID` child, and its source from
/// its first `SourceID` child.
pub open spec fn fact_yield(
    nodes: Seq<XmlNodeView>,
    file: DocumentIdView,
    fact: int,
    draft: EntryView,
) -> (Harvest, EntryView) {
    let fact_ids = match find_child_named(nodes, fact, "ID"@, fact + 1) {
        Some(k) => seq![id_of_node(nodes[k], file)],
        None => Seq::empty(),
    };
    match find_child_named(nodes, fact, "SourceID"@, fact + 1) {
        Some(k) => (
            Harvest {
                fact_ids,
                source_id_references: seq![id_of_node(nodes[k], file)],
                ..Harvest::empty()
            },
            EntryView { sources: draft.sources.push(node_text(nodes[k])), ..draft },
        ),
        None => (Harvest { fact_ids, ..Harvest::empty() }, draft),
    }
}

/// What the element child `j` of an entry yields, and the entry's draft after
/// it. An `ID` child gives one more declared identifier; under which of them
/// the entry is kept is fixed before, in the draft. An entry that the entry
/// holds has the entry's identifier as its parent.
pub open spec fn child_yield(
    nodes: Seq<XmlNodeView>,
    file: DocumentIdView,
    astro_object: Seq<char>,
    positions: TextMapView<Vector2>,
    j: int,
    draft: EntryView,
) -> (Harvest, EntryView)
    decreases nodes.len() - j, nodes.len() + 2,
{
    if j < 0 || j >= nodes.len() {
        (Harvest::empty(), draft)
    } else {
        let node = nodes[j];
        if node.name == "ID"@ {
            (Harvest { entry_ids: seq![id_of_node(node, file)], ..Harvest::empty() }, draft)
        } else if node.name == "Name"@ {
            (Harvest::empty(), EntryView { name: node_text(node), ..draft })
        } else if node.name == "IsCuriosity"@ {
            (Harvest::empty(), EntryView { is_curiosity: true, ..draft })
        } else if node.name == "Curiosity"@ {
            (
                Harvest { curiosity_references: seq![id_of_node(node, file)], ..Harvest::empty() },
                EntryView { curiosity: Some(node_text(node)), ..draft },
            )
        } else if node.name == "RumorFact"@ || node.name == "ExploreFact"@ {
            fact_yield(nodes, file, j, draft)
        } else if node.name == "Entry"@ {
            (harvest_entry(nodes, file, astro_object, positions, Some(draft.id), j), draft)
        } else {
            (Harvest::empty(), draft)
        }
    }
}

/// What the element children of the entry `entry` with an index below `upto`
/// yield, and the entry's draft after them.
pub open spec fn harvest_children(
    nodes: Seq<XmlNodeView>,
    file: DocumentIdView,
    astro_object: Seq<char>,
    positions: TextMapView<Vector2>,
    entry: int,
    upto: int,
    start: EntryView,
) -> (Harvest, EntryView)
    decreases nodes.len() - entry, upto,
{
    if entry < 0 || upto <= entry + 1 || upto > nodes.len() {
        (Harvest::empty(), start)
    } else {
        let before = harvest_children(nodes, file, astro_object, positions, entry, upto - 1, start);
        if is_element_child(nodes, entry, upto - 1) {
            let next = child_yield(nodes, file, astro_object, positions, upto - 1, before.1);
            (before.0.join(next.0), next.1)
        } else {
            before
        }
    }
}

/// What the entry element `entry` yields: what its children yield, and then
/// the entry itself if it has an identifier. The identifier of the entry is
/// the one that it declares last, wherever among its children that stands.
pub open spec fn harvest_entry(
    nodes: Seq<XmlNodeView>,
    file: DocumentIdView,
    astro_object: Seq<char>,
    positions: TextMapView<Vector2>,
    parent: Option<Seq<char>>,
    entry: int,
) -> Harvest
    decreases nodes.len() - entry, nodes.len() + 1,
{
    let found = harvest_children(
        nodes,
        file,
        astro_object,
        positions,
        entry,
        nodes.len() as int,
        new_draft(id_of_element(nodes, entry), astro_object, parent),
    );
    if found.1.id.len() > 0 {
        Harvest { entries: found.0.entries.push(finished(found.1, positions)), ..found.0 }
    } else {
        found.0
    }
}

/// What the astro object element of a document yields.
pub struct DocumentYield {
    /// The identifiers that the astro object declares.
    pub astro_object_ids: Seq<IdView>,
    /// The identifier of the astro object: the one that it declares last.
    /// `None` where it declares none.
    pub astro_object: Option<Seq<char>>,
    /// What its entries yield.
    pub harvest: Harvest,
}

/// What the element children of the astro object element `astro` with an
/// index below `upto` yield: the identifiers that it declares, and what its
/// entries yield. Every entry belongs to the identifier of the astro object,
/// wherever among the children that is declared.
pub open spec fn document_children(
    nodes: Seq<XmlNodeView>,
    file: DocumentIdView,
    positions: TextMapView<Vector2>,
    astro: int,
    upto: int,
) -> (Seq<IdView>, Harvest)
    decreases upto,
{
    if astro < 0 || upto <= astro + 1 || upto > nodes.len() {
        (Seq::empty(), Harvest::empty())
    } else {
        let before = document_children(nodes, file, positions, astro, upto - 1);
        let node = nodes[upto - 1];
        if !is_element_child(nodes, astro, upto - 1) {
            before
        } else if node.name == "ID"@ {
            (before.0.push(id_of_node(node, file)), before.1)
        } else if node.name == "Entry"@ {
            (
                before.0,
                before.1.join(
                    harvest_entry(
                        nodes,
                        file,
                        id_of_element(nodes, astro),
                        positions,
                        None,
                        upto - 1,
                    ),
                ),
            )
        } else {
            before
        }
    }
}

/// What a document yields: what its first element named `AstroObjectEntry`
/// yields, and nothing where it has none.
pub open spec fn document_yield(
    nodes: Seq<XmlNodeView>,
    file: DocumentIdView,
    positions: TextMapView<Vector2>,
) -> DocumentYield {
    match find_named(nodes, "AstroObjectEntry"@, 0) {
        Some(astro) => {
            let found = document_children(nodes, file, positions, astro, nodes.len() as int);
            DocumentYield {
                astro_object_ids: found.0,
                astro_object: declared_id(nodes, astro, nodes.len() as int),
                harvest: found.1,
            }
        },
        None => DocumentYield {
            astro_object_ids: Seq::empty(),
            astro_object: None,
            harvest: Harvest::empty(),
        },
    }
}

impl ShipLogContextView {
    /// The context after it took in what a document yields. `relative_path`
    /// is the path of the document below the project root, where it has one:
    /// under it stands the astro object of the document, where it declares
    /// one.
    pub open spec fn absorb_document(self, found: DocumentYield, relative_path: Option<Seq<char>>)
        -> ShipLogContextView {
        ShipLogContextView {
            astro_object_ids: self.astro_object_ids + found.astro_object_ids,
            relative_to_astro_object: match (found.astro_object, relative_path) {
                (Some(astro_object), Some(path)) => self.relative_to_astro_object.upsert(
                    path,
                    astro_object,
                ),
                _ => self.relative_to_astro_object,
            },
            ..self.absorb(found.harvest)
        }
    }
}

impl ShipLogContextView {
    /// `after` is the context after it took in what a document yields, the
    /// document kept under some path or under none.
    pub open spec fn took_in_document(self, found: DocumentYield, after: ShipLogContextView)
        -> bool {
        exists|relative_path: Option<Seq<char>>|
            after == #[trigger] self.absorb_document(found, relative_path)
    }
}

/// The characters of an optional text.
pub open spec fn opt_str(text: Option<&str>) -> Option<Seq<char>> {
    match text {
        Some(t) => Some(t@),
        None => None,
    }
}

/// The tag names that an entry's children are told apart by are all
/// different.
pub proof fn lemma_tag_names_differ()
    ensures
        "Entry"@ != "ID"@,
        "Entry"@ != "Name"@,
        "Entry"@ != "IsCuriosity"@,
        "Entry"@ != "Curiosity"@,
        "Entry"@ != "RumorFact"@,
        "Entry"@ != "ExploreFact"@,
{
    reveal_strlit("Entry");
    reveal_strlit("ID");
    reveal_strlit("Name");
    reveal_strlit("IsCuriosity");
    reveal_strlit("Curiosity");
    reveal_strlit("RumorFact");
    reveal_strlit("ExploreFact");
    assert("Entry"@.len() == 5);
    assert("ID"@.len() == 2);
    assert("Name"@.len() == 4);
    assert("IsCuriosity"@.len() == 11);
    assert("Curiosity"@.len() == 9);
    assert("RumorFact"@.len() == 9);
    assert("ExploreFact"@.len() == 11);
}

} // verus!
