//! Walking a ship-log document and taking in what it yields.

use vstd::prelude::*;
use vstd::string::*;
use crate::project::ProjectFile;
use crate::ship_log::harvest::{lemma_tag_names_differ, child_yield, declared_id, id_of_element, document_children, document_yield, find_child_named, find_named, finished, harvest_children, harvest_entry, id_of_node, is_element_child, lemma_absorb_empty, lemma_absorb_join, new_draft, node_text, opt_str, upsert_all, Harvest};
use crate::ship_log::{EntryView, IdView, ShipLogContext, ShipLogContextView, ShipLogEntry, ShipLogFile, ID};
use crate::text::{lemma_views_push, same_text};
use crate::text_map::{lemma_deep_upsert, lemma_upsert};
use crate::utils::xml_range_to_diag_range;
use crate::xml::{opt_text, positions_from_one, xml_of_text, XmlDocument, XmlError, XmlNode};

verus! {

/// `after` is `before` with `delta` taken in.
proof fn lemma_absorbed(before: ShipLogContextView, delta: Harvest, after: ShipLogContextView)
    requires
        after.entry_ids =~= before.entry_ids + delta.entry_ids,
        after.fact_ids =~= before.fact_ids + delta.fact_ids,
        after.curiosity_references =~= before.curiosity_references + delta.curiosity_references,
        after.source_id_references =~= before.source_id_references + delta.source_id_references,
        after.entries == upsert_all(before.entries, delta.entries),
        after.astro_object_ids == before.astro_object_ids,
        after.position_map == before.position_map,
        after.system_to_relative_path == before.system_to_relative_path,
        after.relative_to_astro_object == before.relative_to_astro_object,
    ensures
        after == before.absorb(delta),
{
}

impl ID {
    /// The identifier that a node of the document `log_file` holds: its text,
    /// at its place.
    pub fn new(node: &XmlNode, log_file: &ShipLogFile) -> (r: ID)
        requires
            node.start.row >= 1,
            node.start.col >= 1,
            node.end.row >= 1,
            node.end.col >= 1,
        ensures
            r@ == id_of_node(node@, log_file@),
    {
        ID {
            value: text_or_empty(node),
            source_file: log_file.duplicate(),
            range: xml_range_to_diag_range(node.start, node.end),
        }
    }
}

/// The text of a node, empty where it has none.
fn text_or_empty(node: &XmlNode) -> (r: String)
    ensures
        r@ == node_text(node@),
{
    match &node.text {
        Some(t) => t.clone(),
        None => String::new(),
    }
}

/// Whether `parent` names `index`.
fn names_parent(parent: Option<usize>, index: usize) -> (r: bool)
    ensures
        r == (parent == Some(index)),
{
    match parent {
        Some(p) => p == index,
        None => false,
    }
}

/// The first child of node `parent` with the tag name `name`.
fn first_child_named(doc: &XmlDocument, parent: usize, name: &str) -> (r: Option<usize>)
    requires
        parent < doc.nodes@.len(),
    ensures
        match r {
            Some(k) => find_child_named(doc@, parent as int, name@, parent + 1) == Some(k as int)
                && k < doc.nodes@.len(),
            None => find_child_named(doc@, parent as int, name@, parent + 1) is None,
        },
{
    let count: usize = doc.nodes.len();
    let mut k: usize = parent + 1;
    while k < count
        invariant
            parent < k <= doc.nodes@.len(),
            count == doc.nodes@.len(),
            find_child_named(doc@, parent as int, name@, parent + 1) == find_child_named(
                doc@,
                parent as int,
                name@,
                k as int,
            ),
        decreases doc.nodes@.len() - k,
    {
        assert(doc@[k as int] == doc.nodes@[k as int]@);
        if names_parent(doc.nodes[k].parent, parent) && same_text(doc.nodes[k].name.as_str(), name) {
            return Some(k);
        }
        k += 1;
    }
    None
}

/// The text of the last element child of node `parent` that is named `ID`.
fn last_declared_id(doc: &XmlDocument, parent: usize) -> (r: Option<String>)
    requires
        parent < doc.nodes@.len(),
    ensures
        opt_text(r) == declared_id(doc@, parent as int, doc@.len() as int),
{
    let count: usize = doc.nodes.len();
    let mut found: Option<String> = None;
    let mut j: usize = parent + 1;
    while j < count
        invariant
            parent < j <= doc.nodes@.len(),
            count == doc.nodes@.len(),
            opt_text(found) == declared_id(doc@, parent as int, j as int),
        decreases doc.nodes@.len() - j,
    {
        let child = &doc.nodes[j];
        assert(doc@[j as int] == child@);
        if child.element && names_parent(child.parent, parent) && same_text(
            child.name.as_str(),
            "ID",
        ) {
            found = Some(text_or_empty(child));
        }
        j += 1;
    }
    found
}

/// The text of an identifier, empty where there is none.
fn id_or_empty(id: &Option<String>) -> (r: String)
    ensures
        r@ == match opt_text(*id) {
            Some(t) => t,
            None => Seq::empty(),
        },
{
    match id {
        Some(t) => t.clone(),
        None => String::new(),
    }
}

impl ShipLogContext {
    /// Takes in what the entry element `node` yields.
    fn parse_entry(
        &mut self,
        log_file: &ShipLogFile,
        ao_id: &str,
        doc: &XmlDocument,
        node: usize,
        parent: Option<&str>,
    )
        requires
            old(self).wf(),
            node < doc.nodes@.len(),
            positions_from_one(doc@),
        ensures
            final(self).wf(),
            final(self)@ == old(self)@.absorb(
                harvest_entry(
                    doc@,
                    log_file@,
                    ao_id@,
                    old(self)@.position_map,
                    match parent {
                        Some(p) => Some(p@),
                        None => None,
                    },
                    node as int,
                ),
            ),
        decreases doc.nodes@.len() - node,
    {
        let ghost start = old(self)@;
        let ghost nodes = doc@;
        let ghost file = log_file@;
        let ghost positions = start.position_map;
        let ghost parent_text: Option<Seq<char>> = match parent {
            Some(p) => Some(p@),
            None => None,
        };
        let ghost draft = new_draft(id_of_element(nodes, node as int), ao_id@, parent_text);
        let declared = last_declared_id(doc, node);
        let mut entry = ShipLogEntry {
            id: id_or_empty(&declared),
            astro_object: String::from_str(ao_id),
            position: None,
            name: String::new(),
            parent: match parent {
                Some(p) => Some(String::from_str(p)),
                None => None,
            },
            is_curiosity: false,
            sources: Vec::new(),
            curiosity: None,
        };
        proof {
            assert(entry@.sources =~= Seq::empty());
            assert(entry@ == draft);
            lemma_absorb_empty(start);
        }
        let count: usize = doc.nodes.len();
        let mut j: usize = node + 1;
        while j < count
            invariant
                node < j <= doc.nodes@.len(),
                count == doc.nodes@.len(),
                nodes == doc@,
                file == log_file@,
                positions == start.position_map,
                start == old(self)@,
                draft == new_draft(id_of_element(nodes, node as int), ao_id@, parent_text),
                positions_from_one(nodes),
                self.wf(),
                self@ == start.absorb(
                    harvest_children(nodes, file, ao_id@, positions, node as int, j as int, draft).0,
                ),
                entry@ == harvest_children(
                    nodes,
                    file,
                    ao_id@,
                    positions,
                    node as int,
                    j as int,
                    draft,
                ).1,
            decreases doc.nodes@.len() - j,
        {
            let ghost before = self@;
            let ghost found = harvest_children(
                nodes,
                file,
                ao_id@,
                positions,
                node as int,
                j as int,
                draft,
            );
            let ghost next = child_yield(nodes, file, ao_id@, positions, j as int, found.1);
            let child = &doc.nodes[j];
            assert(nodes[j as int] == child@);
            if child.element && names_parent(child.parent, node) {
                assert(is_element_child(nodes, node as int, j as int));
                if same_text(child.name.as_str(), "ID") {
                    let id = ID::new(child, log_file);
                    proof {
                        lemma_views_push(self.entry_ids@, id);
                    }
                    self.entry_ids.push(id);
                } else if same_text(child.name.as_str(), "Name") {
                    entry.name = text_or_empty(child);
                } else if same_text(child.name.as_str(), "IsCuriosity") {
                    entry.is_curiosity = true;
                } else if same_text(child.name.as_str(), "Curiosity") {
                    let id = ID::new(child, log_file);
                    proof {
                        lemma_views_push(self.curiosity_references@, id);
                    }
                    self.curiosity_references.push(id);
                    entry.curiosity = Some(text_or_empty(child));
                } else if same_text(child.name.as_str(), "RumorFact") || same_text(
                    child.name.as_str(),
                    "ExploreFact",
                ) {
                    match first_child_named(doc, j, "ID") {
                        Some(k) => {
                            assert(nodes[k as int] == doc.nodes@[k as int]@);
                            let id = ID::new(&doc.nodes[k], log_file);
                            proof {
                                lemma_views_push(self.fact_ids@, id);
                            }
                            self.fact_ids.push(id);
                        },
                        None => {},
                    }
                    match first_child_named(doc, j, "SourceID") {
                        Some(k) => {
                            assert(nodes[k as int] == doc.nodes@[k as int]@);
                            let id = ID::new(&doc.nodes[k], log_file);
                            let source = text_or_empty(&doc.nodes[k]);
                            proof {
                                lemma_views_push(self.source_id_references@, id);
                                lemma_views_push(entry.sources@, source);
                            }
                            self.source_id_references.push(id);
                            entry.sources.push(source);
                        },
                        None => {},
                    }
                } else if same_text(child.name.as_str(), "Entry") {
                    self.parse_entry(log_file, ao_id, doc, j, Some(entry.id.as_str()));
                }
                proof {
                    lemma_tag_names_differ();
                    if child@.name == "Entry"@ {
                        assert(before.position_map == positions);
                        assert(next.0 == harvest_entry(
                            nodes,
                            file,
                            ao_id@,
                            positions,
                            Some(found.1.id),
                            j as int,
                        ));
                        assert(self@ == before.absorb(next.0));
                    } else {
                        lemma_absorbed(before, next.0, self@);
                    }
                    assert(entry@ == next.1);
                    lemma_absorb_join(start, found.0, next.0);
                }
            }
            j += 1;
        }
        if !entry.id.as_str().is_empty() {
            let ghost before = self@;
            let ghost found = harvest_children(
                nodes,
                file,
                ao_id@,
                positions,
                node as int,
                nodes.len() as int,
                draft,
            );
            entry.position = match self.position_map.get(entry.id.as_str()) {
                Some(p) => Some(*p),
                None => None,
            };
            if entry.name.as_str().is_empty() {
                entry.name = String::from_str("UNNAMED");
            }
            let key = entry.id.clone();
            proof {
                let kept = finished(found.1, positions);
                assert(entry@ == kept);
                lemma_deep_upsert(self.entries.model(), key@, entry);
                let last = Harvest { entries: seq![kept], ..Harvest::empty() };
                assert(seq![kept].drop_last() =~= Seq::<EntryView>::empty());
                assert(upsert_all(before.entries, seq![kept].drop_last()) == before.entries);
                assert(upsert_all(before.entries, seq![kept]) == before.entries.upsert(
                    kept.id,
                    kept,
                ));
                lemma_absorb_join(start, found.0, last);
                let whole = Harvest { entries: found.0.entries.push(kept), ..found.0 };
                assert(found.0.join(last).entry_ids =~= whole.entry_ids);
                assert(found.0.join(last).fact_ids =~= whole.fact_ids);
                assert(found.0.join(last).curiosity_references =~= whole.curiosity_references);
                assert(found.0.join(last).source_id_references =~= whole.source_id_references);
                assert(found.0.join(last).entries =~= whole.entries);
                lemma_upsert(before.entries, kept.id, kept);
            }
            self.entries.insert(key, entry);
            proof {
                let kept = finished(found.1, positions);
                let last = Harvest { entries: seq![kept], ..Harvest::empty() };
                lemma_absorbed(before, last, self@);
            }
        }
    }
}

/// The first node with the tag name `name`.
fn first_named(doc: &XmlDocument, name: &str) -> (r: Option<usize>)
    ensures
        match r {
            Some(k) => find_named(doc@, name@, 0) == Some(k as int) && k < doc.nodes@.len(),
            None => find_named(doc@, name@, 0) is None,
        },
{
    let mut k: usize = 0;
    while k < doc.nodes.len()
        invariant
            k <= doc.nodes@.len(),
            find_named(doc@, name@, 0) == find_named(doc@, name@, k as int),
        decreases doc.nodes@.len() - k,
    {
        assert(doc@[k as int] == doc.nodes@[k as int]@);
        if same_text(doc.nodes[k].name.as_str(), name) {
            return Some(k);
        }
        k += 1;
    }
    None
}

impl ShipLogContext {
    /// Takes in what a parsed ship-log document yields. `relative_path` is the
    /// path of the document below the project root, where it has one.
    pub fn parse_document(
        &mut self,
        log_file: &ShipLogFile,
        relative_path: Option<&str>,
        doc: &XmlDocument,
    )
        requires
            old(self).wf(),
            positions_from_one(doc@),
        ensures
            final(self).wf(),
            final(self)@ == old(self)@.absorb_document(
                document_yield(doc@, log_file@, old(self)@.position_map),
                opt_str(relative_path),
            ),
    {
        let ghost start = self@;
        let ghost nodes = doc@;
        let ghost file = log_file@;
        let ghost positions = start.position_map;
        let ghost rel = opt_str(relative_path);
        proof {
            lemma_absorb_empty(start);
            assert(start.astro_object_ids + Seq::<IdView>::empty() =~= start.astro_object_ids);
        }
        match first_named(doc, "AstroObjectEntry") {
            None => {},
            Some(astro) => {
                let count: usize = doc.nodes.len();
                let declared = last_declared_id(doc, astro);
                let id = id_or_empty(&declared);
                let mut j: usize = astro + 1;
                while j < count
                    invariant
                        astro < j <= doc.nodes@.len(),
                        count == doc.nodes@.len(),
                        nodes == doc@,
                        file == log_file@,
                        start == old(self)@,
                        positions == start.position_map,
                        old(self).wf(),
                        positions_from_one(nodes),
                        self.wf(),
                        id@ == id_of_element(nodes, astro as int),
                        self@ == (ShipLogContextView {
                            astro_object_ids: start.astro_object_ids + document_children(
                                nodes,
                                file,
                                positions,
                                astro as int,
                                j as int,
                            ).0,
                            ..start.absorb(
                                document_children(
                                    nodes,
                                    file,
                                    positions,
                                    astro as int,
                                    j as int,
                                ).1,
                            )
                        }),
                    decreases doc.nodes@.len() - j,
                {
                    let ghost found = document_children(
                        nodes,
                        file,
                        positions,
                        astro as int,
                        j as int,
                    );
                    let child = &doc.nodes[j];
                    assert(nodes[j as int] == child@);
                    if child.element && names_parent(child.parent, astro) {
                        if same_text(child.name.as_str(), "ID") {
                            let declared_here = ID::new(child, log_file);
                            proof {
                                lemma_views_push(self.astro_object_ids@, declared_here);
                                assert((start.astro_object_ids + found.0).push(declared_here@)
                                    =~= start.astro_object_ids + found.0.push(declared_here@));
                            }
                            self.astro_object_ids.push(declared_here);
                        } else if same_text(child.name.as_str(), "Entry") {
                            proof {
                                lemma_absorb_join(
                                    start,
                                    found.1,
                                    harvest_entry(nodes, file, id@, positions, None, j as int),
                                );
                            }
                            self.parse_entry(log_file, id.as_str(), doc, j, None);
                        }
                    }
                    j += 1;
                }
                match (declared, relative_path) {
                    (Some(astro_object), Some(path)) => {
                        proof {
                            lemma_deep_upsert(
                                self.relative_to_astro_object.model(),
                                path@,
                                astro_object,
                            );
                        }
                        self.relative_to_astro_object.insert(String::from_str(path), astro_object);
                    },
                    _ => {},
                }
            },
        }
    }

    /// Reads a ship-log document and takes in what it yields. A text that is
    /// not XML changes nothing and gives the parser's error. Under which path
    /// the document's astro object is kept, if under any, is for the machine
    /// to say: it is the path of `project_file` below `root_path`.
    pub fn parse(
        &mut self,
        log_file: &ShipLogFile,
        project_file: &ProjectFile,
        root_path: &str,
        raw_str: &str,
    ) -> (r: Result<(), XmlError>)
        requires
            old(self).wf(),
        ensures
            final(self).wf(),
            match xml_of_text(raw_str@) {
                None => r is Err && final(self)@ == old(self)@,
                Some(nodes) => r is Ok && old(self)@.took_in_document(
                    document_yield(nodes, log_file@, old(self)@.position_map),
                    final(self)@,
                ),
            },
    {
        match XmlDocument::parse(raw_str) {
            Err(error) => Err(error),
            Ok(doc) => {
                let relative = project_file.get_relative(root_path);
                let relative_path: Option<&str> = match &relative {
                    Some(path) => Some(path.as_str()),
                    None => None,
                };
                self.parse_document(log_file, relative_path, &doc);
                proof {
                    let witness = opt_str(relative_path);
                    assert(self@ == old(self)@.absorb_document(
                        document_yield(doc@, log_file@, old(self)@.position_map),
                        witness,
                    ));
                    assert(xml_of_text(raw_str@) == Some(doc@));
                }
                Ok(())
            },
        }
    }
}

} // verus!
