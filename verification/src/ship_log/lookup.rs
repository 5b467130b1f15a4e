//! Building the context of a project, and asking it for the entries of a
//! star system.

use vstd::prelude::*;
use crate::diagnostics::DocumentIdView;
use crate::planets::Planet;
use crate::project::{Project, ProjectFileView};
use crate::ship_log::baseline::{is_vanilla_astro_object, vanilla_astro_objects, Baseline, BaselineView};
use crate::ship_log::harvest::document_yield;
use crate::ship_log::{EntryView, ShipLogContext, ShipLogContextView, ShipLogEntry, Vector2};
use crate::systems::{EntryPos, StarSystem};
use crate::text::{contains_text, holds_text, lemma_filter_step, lemma_views_push, views};
use crate::text_map::{find_key, lemma_deep_lookup, lemma_find_key, lemma_upsert, TextMapView};
use crate::xml::{opt_text, xml_of_text, XmlDocument};

verus! {

impl View for EntryPos {
    type V = (Seq<char>, Vector2);

    open spec fn view(&self) -> (Seq<char>, Vector2) {
        (self.id@, self.position)
    }
}

/// The positions that a star system gives, in its order; none where it has no
/// list.
pub open spec fn system_positions(system: StarSystem) -> Seq<(Seq<char>, Vector2)> {
    match system.entry_positions {
        Some(list) => views(list@),
        None => Seq::empty(),
    }
}

/// The map with each of `positions` under its entry, one after the other.
pub open spec fn with_positions(map: TextMapView<Vector2>, positions: Seq<(Seq<char>, Vector2)>)
    -> TextMapView<Vector2>
    decreases positions.len(),
{
    if positions.len() == 0 {
        map
    } else {
        with_positions(map, positions.drop_last()).upsert(positions.last().0, positions.last().1)
    }
}

/// The ship-log document that a planet names, if it names one.
pub open spec fn planet_ship_log(planet: Planet) -> Option<Seq<char>> {
    match planet.ShipLog {
        Some(module) => opt_text(module.xml_file),
        None => None,
    }
}

/// The map with `item` behind the items that stand under `key`.
pub open spec fn append_under(map: TextMapView<Seq<Seq<char>>>, key: Seq<char>, item: Seq<char>)
    -> TextMapView<Seq<Seq<char>>> {
    match find_key(map.keys, key) {
        Some(i) => TextMapView { keys: map.keys, values: map.values.update(i, map.values[i].push(item)) },
        None => TextMapView { keys: map.keys.push(key), values: map.values.push(seq![item]) },
    }
}

/// The context after it took in a planet: its ship-log document stands under
/// its star system.
pub open spec fn with_planet(ctx: ShipLogContextView, planet: Planet) -> ShipLogContextView {
    match planet_ship_log(planet) {
        Some(path) => ShipLogContextView {
            system_to_relative_path: append_under(
                ctx.system_to_relative_path,
                planet.starSystem@,
                path,
            ),
            ..ctx
        },
        None => ctx,
    }
}

/// The astro objects that the documents at `paths` declare, as far as
/// `by_path` knows them.
pub open spec fn astro_objects_at(paths: Seq<Seq<char>>, by_path: TextMapView<Seq<char>>) -> Seq<
    Seq<char>,
>
    decreases paths.len(),
{
    if paths.len() == 0 {
        Seq::empty()
    } else {
        let rest = astro_objects_at(paths.drop_last(), by_path);
        match by_path.lookup(paths.last()) {
            Some(astro_object) => rest.push(astro_object),
            None => rest,
        }
    }
}

/// Accepts the entries of the astro objects `astro_objects` and of those of
/// the base game.
pub open spec fn belongs_to(astro_objects: Seq<Seq<char>>) -> spec_fn(EntryView) -> bool {
    |entry: EntryView|
        holds_text(astro_objects, entry.astro_object) || holds_text(
            vanilla_astro_objects(),
            entry.astro_object,
        )
}

impl ShipLogContextView {
    /// The entries of the star system `system`: those of the astro objects
    /// that its ship-log documents declare, and those of the astro objects of
    /// the base game. `None` for a star system that no planet names.
    pub open spec fn entries_for_system(self, system: Seq<char>) -> Option<Seq<EntryView>> {
        match self.system_to_relative_path.lookup(system) {
            Some(paths) => Some(
                self.entries.values.filter(
                    belongs_to(astro_objects_at(paths, self.relative_to_astro_object)),
                ),
            ),
            None => None,
        }
    }
}

impl ShipLogContext {
    /// Takes in the positions that a star system gives to entries.
    pub fn parse_system_positions(&mut self, system: &StarSystem)
        requires
            old(self).wf(),
        ensures
            final(self).wf(),
            final(self)@ == (ShipLogContextView {
                position_map: with_positions(old(self)@.position_map, system_positions(*system)),
                ..old(self)@
            }),
    {
        match &system.entry_positions {
            Some(list) => {
                let mut i: usize = 0;
                assert(views(list@).take(0) =~= Seq::<(Seq<char>, Vector2)>::empty());
                while i < list.len()
                    invariant
                        i <= list@.len(),
                        self.wf(),
                        self@ == (ShipLogContextView {
                            position_map: with_positions(
                                old(self)@.position_map,
                                views(list@).take(i as int),
                            ),
                            ..old(self)@
                        }),
                    decreases list@.len() - i,
                {
                    proof {
                        assert(views(list@).take(i + 1).drop_last() =~= views(list@).take(
                            i as int,
                        ));
                        assert(views(list@).take(i + 1).last() == list@[i as int]@);
                    }
                    self.position_map.insert(list[i].id.clone(), list[i].position);
                    i += 1;
                }
                assert(views(list@).take(list@.len() as int) =~= views(list@));
            },
            None => {},
        }
    }

    /// Takes in a planet: the ship-log document that it names, if any, comes
    /// behind the documents of its star system.
    pub fn parse_planet(&mut self, planet: &Planet)
        requires
            old(self).wf(),
        ensures
            final(self).wf(),
            final(self)@ == with_planet(old(self)@, *planet),
    {
        match &planet.ShipLog {
            Some(module) => match &module.xml_file {
                Some(xml_file) => {
                    let path = xml_file.clone();
                    let ghost map = self@.system_to_relative_path;
                    proof {
                        lemma_find_key(map.keys, planet.starSystem@);
                    }
                    match self.system_to_relative_path.position(planet.starSystem.as_str()) {
                        Some(i) => {
                            proof {
                                lemma_views_push(self.system_to_relative_path.values@[i as int]@, path);
                            }
                            self.system_to_relative_path.values[i].push(path);
                            assert(self@.system_to_relative_path.values =~= map.values.update(
                                i as int,
                                map.values[i as int].push(path@),
                            ));
                        },
                        None => {
                            let mut paths: Vec<String> = Vec::new();
                            proof {
                                lemma_views_push(paths@, path);
                                assert(views(paths@.push(path)) =~= seq![path@]);
                            }
                            paths.push(path);
                            let key = planet.starSystem.clone();
                            proof {
                                lemma_upsert(self.system_to_relative_path.model(), key@, paths);
                            }
                            self.system_to_relative_path.insert(key, paths);
                            assert(self@.system_to_relative_path.values =~= map.values.push(
                                seq![path@],
                            ));
                        },
                    }
                },
                None => {},
            },
            None => {},
        }
    }

    /// The astro objects that the documents at `paths` declare.
    fn astro_objects_of(&self, paths: &Vec<String>) -> (r: Vec<String>)
        requires
            self.wf(),
        ensures
            views(r@) == astro_objects_at(views(paths@), self@.relative_to_astro_object),
    {
        let mut found: Vec<String> = Vec::new();
        let mut i: usize = 0;
        assert(views(found@) =~= Seq::<Seq<char>>::empty());
        assert(views(paths@).take(0) =~= Seq::<Seq<char>>::empty());
        while i < paths.len()
            invariant
                i <= paths@.len(),
                self.wf(),
                views(found@) == astro_objects_at(
                    views(paths@).take(i as int),
                    self@.relative_to_astro_object,
                ),
            decreases paths@.len() - i,
        {
            proof {
                assert(views(paths@).take(i + 1).drop_last() =~= views(paths@).take(i as int));
                assert(views(paths@).take(i + 1).last() == paths@[i as int]@);
                lemma_deep_lookup(self.relative_to_astro_object.model(), paths@[i as int]@);
            }
            match self.relative_to_astro_object.get(paths[i].as_str()) {
                Some(astro_object) => {
                    let value = astro_object.clone();
                    proof {
                        lemma_views_push(found@, value);
                    }
                    found.push(value);
                },
                None => {},
            }
            i += 1;
        }
        assert(views(paths@).take(paths@.len() as int) =~= views(paths@));
        found
    }

    /// The entries of the star system `system`: those of the astro objects
    /// that its ship-log documents declare, and those of the astro objects of
    /// the base game. `None` for a star system that no planet names.
    pub fn get_entries_for_system(&self, system: &str) -> (r: Option<Vec<&ShipLogEntry>>)
        requires
            self.wf(),
        ensures
            match r {
                Some(entries) => self@.entries_for_system(system@) == Some(views(entries@)),
                None => self@.entries_for_system(system@) is None,
            },
    {
        proof {
            lemma_find_key(self@.system_to_relative_path.keys, system@);
        }
        match self.system_to_relative_path.get(system) {
            None => None,
            Some(paths) => {
                let ao_ids = self.astro_objects_of(paths);
                let ghost keep = belongs_to(views(ao_ids@));
                let ghost all = views(self.entries.values@);
                let mut found: Vec<&ShipLogEntry> = Vec::new();
                let mut i: usize = 0;
                proof {
                    assert(views(found@) =~= Seq::<EntryView>::empty());
                    assert(all.take(0).filter(keep) =~= Seq::<EntryView>::empty()) by {
                        reveal(Seq::filter);
                    }
                }
                while i < self.entries.values.len()
                    invariant
                        i <= self.entries.values@.len(),
                        all == views(self.entries.values@),
                        keep == belongs_to(views(ao_ids@)),
                        views(found@) == all.take(i as int).filter(keep),
                    decreases self.entries.values@.len() - i,
                {
                    let entry = &self.entries.values[i];
                    proof {
                        lemma_filter_step(all, i as int, keep);
                    }
                    if contains_text(&ao_ids, entry.astro_object.as_str())
                        || is_vanilla_astro_object(entry.astro_object.as_str()) {
                        proof {
                            lemma_views_push(found@, entry);
                        }
                        found.push(entry);
                    }
                    i += 1;
                }
                assert(all.take(self.entries.values@.len() as int) =~= all);
                Some(found)
            },
        }
    }
}

/// The context after it took in the positions of some star systems, one
/// after the other.
pub open spec fn with_systems(ctx: ShipLogContextView, systems: Seq<StarSystem>)
    -> ShipLogContextView
    decreases systems.len(),
{
    if systems.len() == 0 {
        ctx
    } else {
        let before = with_systems(ctx, systems.drop_last());
        ShipLogContextView {
            position_map: with_positions(before.position_map, system_positions(systems.last())),
            ..before
        }
    }
}

/// The context after it took in some planets, one after the other.
pub open spec fn with_planets(ctx: ShipLogContextView, planets: Seq<Planet>) -> ShipLogContextView
    decreases planets.len(),
{
    if planets.len() == 0 {
        ctx
    } else {
        with_planet(with_planets(ctx, planets.drop_last()), planets.last())
    }
}

/// The document that a file is.
pub open spec fn document_of(file: ProjectFileView) -> DocumentIdView {
    DocumentIdView { uri: file.uri, version: file.version }
}

/// The context after it took in one ship-log file, kept under `path`. A file
/// that is not XML leaves the context as it is.
pub open spec fn with_ship_log(
    ctx: ShipLogContextView,
    file: ProjectFileView,
    path: Option<Seq<char>>,
) -> ShipLogContextView {
    match xml_of_text(file.contents) {
        Some(nodes) => ctx.absorb_document(
            document_yield(nodes, document_of(file), ctx.position_map),
            path,
        ),
        None => ctx,
    }
}

/// The context after it took in some ship-log files, one after the other,
/// each kept under its path.
pub open spec fn with_ship_logs(
    ctx: ShipLogContextView,
    files: Seq<ProjectFileView>,
    paths: Seq<Option<Seq<char>>>,
) -> ShipLogContextView
    decreases files.len(),
{
    if files.len() == 0 || paths.len() != files.len() {
        ctx
    } else {
        with_ship_log(
            with_ship_logs(ctx, files.drop_last(), paths.drop_last()),
            files.last(),
            paths.last(),
        )
    }
}

/// The map with each of `entries` put under its identifier, one after the
/// other, where nothing stands under it yet: what stands under an identifier
/// stays.
pub open spec fn add_missing(map: TextMapView<EntryView>, entries: Seq<EntryView>) -> TextMapView<
    EntryView,
>
    decreases entries.len(),
{
    if entries.len() == 0 {
        map
    } else {
        let before = add_missing(map, entries.drop_last());
        if before.lookup(entries.last().id) is Some {
            before
        } else {
            before.upsert(entries.last().id, entries.last())
        }
    }
}

/// The context after the entries of the base game were put in: each comes
/// under its identifier where the project has no entry under it. An entry of
/// the project is never replaced.
pub open spec fn with_baseline(ctx: ShipLogContextView, entries: Seq<EntryView>)
    -> ShipLogContextView {
    ShipLogContextView { entries: add_missing(ctx.entries, entries), ..ctx }
}

/// The context of a project: the positions of its star systems, the ship-log
/// documents of its planets, what its ship-log files yield, each kept under
/// its path, and the entries of the base game.
pub open spec fn project_context(
    ship_log_files: Seq<ProjectFileView>,
    paths: Seq<Option<Seq<char>>>,
    systems: Seq<StarSystem>,
    planets: Seq<Planet>,
    baseline: BaselineView,
) -> ShipLogContextView {
    with_baseline(
        with_ship_logs(
            with_planets(with_systems(ShipLogContextView::empty(), systems), planets),
            ship_log_files,
            paths,
        ),
        baseline.entries,
    )
}

/// `ctx` is the context of a project whose ship-log files are kept under some
/// paths.
pub open spec fn is_project_context(
    ctx: ShipLogContextView,
    ship_log_files: Seq<ProjectFileView>,
    systems: Seq<StarSystem>,
    planets: Seq<Planet>,
    baseline: BaselineView,
) -> bool {
    exists|paths: Seq<Option<Seq<char>>>|
        paths.len() == ship_log_files.len() && ctx == #[trigger] project_context(
            ship_log_files,
            paths,
            systems,
            planets,
            baseline,
        )
}

/// The characters of each of some optional strings.
pub open spec fn opt_texts(paths: Seq<Option<String>>) -> Seq<Option<Seq<char>>> {
    Seq::new(paths.len(), |i: int| opt_text(paths[i]))
}

impl ShipLogEntry {
    /// A copy of the entry.
    pub fn duplicate(&self) -> (r: ShipLogEntry)
        ensures
            r@ == self@,
    {
        let mut sources: Vec<String> = Vec::new();
        let mut i: usize = 0;
        while i < self.sources.len()
            invariant
                i <= self.sources@.len(),
                views(sources@) == views(self.sources@).take(i as int),
            decreases self.sources@.len() - i,
        {
            let source = self.sources[i].clone();
            proof {
                lemma_views_push(sources@, source);
                assert(views(self.sources@).take(i as int).push(source@) =~= views(
                    self.sources@,
                ).take(i + 1));
            }
            sources.push(source);
            i += 1;
        }
        assert(views(self.sources@).take(self.sources@.len() as int) =~= views(self.sources@));
        ShipLogEntry {
            id: self.id.clone(),
            astro_object: self.astro_object.clone(),
            position: self.position,
            name: self.name.clone(),
            parent: match &self.parent {
                Some(p) => Some(p.clone()),
                None => None,
            },
            is_curiosity: self.is_curiosity,
            sources,
            curiosity: match &self.curiosity {
                Some(c) => Some(c.clone()),
                None => None,
            },
        }
    }
}

impl ShipLogContext {
    /// The context of a project whose ship-log files are kept under the paths
    /// `relative_paths`, one for each file in order. `systems` and `planets`
    /// are the star-system and planet configs of the project that could be
    /// read. The entries of the base game come last, and only under
    /// identifiers that the project does not use.
    pub fn from_parts(
        project: &Project,
        relative_paths: &Vec<Option<String>>,
        systems: &Vec<StarSystem>,
        planets: &Vec<Planet>,
        baseline: &Baseline,
    ) -> (r: Self)
        requires
            relative_paths@.len() == project.ship_log_files@.len(),
        ensures
            r.wf(),
            r@ == project_context(
                project@.ship_log_files,
                opt_texts(relative_paths@),
                systems@,
                planets@,
                baseline@,
            ),
    {
        let mut ctx = Self::new();
        let mut i: usize = 0;
        assert(systems@.take(0) =~= Seq::<StarSystem>::empty());
        while i < systems.len()
            invariant
                i <= systems@.len(),
                ctx.wf(),
                ctx@ == with_systems(ShipLogContextView::empty(), systems@.take(i as int)),
            decreases systems@.len() - i,
        {
            proof {
                assert(systems@.take(i + 1).drop_last() =~= systems@.take(i as int));
            }
            ctx.parse_system_positions(&systems[i]);
            i += 1;
        }
        assert(systems@.take(systems@.len() as int) =~= systems@);
        let ghost after_systems = ctx@;
        i = 0;
        assert(planets@.take(0) =~= Seq::<Planet>::empty());
        while i < planets.len()
            invariant
                i <= planets@.len(),
                ctx.wf(),
                ctx@ == with_planets(after_systems, planets@.take(i as int)),
            decreases planets@.len() - i,
        {
            proof {
                assert(planets@.take(i + 1).drop_last() =~= planets@.take(i as int));
            }
            ctx.parse_planet(&planets[i]);
            i += 1;
        }
        assert(planets@.take(planets@.len() as int) =~= planets@);
        let ghost after_planets = ctx@;
        let ghost files = views(project.ship_log_files@);
        let ghost paths = opt_texts(relative_paths@);
        i = 0;
        assert(files.take(0) =~= Seq::<ProjectFileView>::empty());
        while i < project.ship_log_files.len()
            invariant
                i <= project.ship_log_files@.len(),
                relative_paths@.len() == project.ship_log_files@.len(),
                files == views(project.ship_log_files@),
                paths == opt_texts(relative_paths@),
                ctx.wf(),
                ctx@ == with_ship_logs(after_planets, files.take(i as int), paths.take(i as int)),
            decreases project.ship_log_files@.len() - i,
        {
            let file = &project.ship_log_files[i];
            proof {
                assert(files.take(i + 1).drop_last() =~= files.take(i as int));
                assert(paths.take(i + 1).drop_last() =~= paths.take(i as int));
                assert(files.take(i + 1).last() == file@);
                assert(paths.take(i + 1).last() == opt_text(relative_paths@[i as int]));
                assert(document_of(file@) == file.id@);
            }
            match XmlDocument::parse(file.contents.as_str()) {
                Ok(doc) => {
                    let path: Option<&str> = match &relative_paths[i] {
                        Some(p) => Some(p.as_str()),
                        None => None,
                    };
                    ctx.parse_document(&file.id, path, &doc);
                },
                Err(_) => {},
            }
            i += 1;
        }
        proof {
            assert(files.take(files.len() as int) =~= files);
            assert(paths.take(files.len() as int) =~= paths);
        }
        let ghost after_files = ctx@;
        i = 0;
        assert(views(baseline.entries@).take(0) =~= Seq::<EntryView>::empty());
        while i < baseline.entries.len()
            invariant
                i <= baseline.entries@.len(),
                ctx.wf(),
                ctx@ == with_baseline(after_files, views(baseline.entries@).take(i as int)),
            decreases baseline.entries@.len() - i,
        {
            let entry = baseline.entries[i].duplicate();
            let key = entry.id.clone();
            proof {
                let all = views(baseline.entries@);
                assert(all.take(i + 1).drop_last() =~= all.take(i as int));
                assert(all.take(i + 1).last() == entry@);
                lemma_deep_lookup(ctx.entries.model(), key@);
                crate::text_map::lemma_deep_upsert(ctx.entries.model(), key@, entry);
            }
            let known = ctx.entries.get(key.as_str()).is_some();
            if !known {
                ctx.entries.insert(key, entry);
            }
            i += 1;
        }
        assert(views(baseline.entries@).take(baseline.entries@.len() as int) =~= views(
            baseline.entries@,
        ));
        ctx
    }

    /// The context of a project. Under which path each ship-log file is kept
    /// is for the machine to say: it is the path of the file below the root of
    /// the project.
    pub fn from_project(
        project: &Project,
        systems: &Vec<StarSystem>,
        planets: &Vec<Planet>,
        baseline: &Baseline,
    ) -> (r: Self)
        ensures
            r.wf(),
            is_project_context(r@, project@.ship_log_files, systems@, planets@, baseline@),
    {
        let mut relative_paths: Vec<Option<String>> = Vec::new();
        let mut i: usize = 0;
        while i < project.ship_log_files.len()
            invariant
                i <= project.ship_log_files@.len(),
                relative_paths@.len() == i,
            decreases project.ship_log_files@.len() - i,
        {
            relative_paths.push(project.ship_log_files[i].get_relative(project.root_path.as_str()));
            i += 1;
        }
        let ctx = Self::from_parts(project, &relative_paths, systems, planets, baseline);
        proof {
            let paths = opt_texts(relative_paths@);
            assert(ctx@ == project_context(
                project@.ship_log_files,
                paths,
                systems@,
                planets@,
                baseline@,
            ));
        }
        ctx
    }
}

} // verus!
