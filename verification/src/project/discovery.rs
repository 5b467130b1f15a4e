//! What discovery reads out of the configs of a project: the documents that
//! the planets name, and the names of the star systems.

use vstd::prelude::*;
use vstd::string::*;
use crate::json::{json_of_text, listed_texts, Json};
use crate::project::{Project, ProjectFileView, ProjectFiles};
use crate::text::{lemma_views_add, lemma_views_push, same_text, split_by, split_text, views};

verus! {

/// The kinds of documents that a planet config names.
#[derive(Clone, Copy, Debug, PartialEq, Eq, Structural)]
pub enum ReferenceKind {
    /// The ship log of the planet.
    ShipLog,
    /// The dialogue trees of its props.
    Dialogue,
    /// The translator texts of its props.
    TranslatorText,
    /// The whiteboard texts of its remotes.
    Remote,
}

/// The ship-log document that a planet config names: the string `xmlFile` of
/// its object `ShipLog`.
pub open spec fn ship_log_reference(planet: Json) -> Seq<Seq<char>> {
    match planet.member("ShipLog"@) {
        Some(module) => match module.member("xmlFile"@) {
            Some(file) => match file.text() {
                Some(path) => seq![path],
                None => Seq::empty(),
            },
            None => Seq::empty(),
        },
        None => Seq::empty(),
    }
}

/// The documents of one kind that a planet config names, in its order.
pub open spec fn references_of(planet: Json, kind: ReferenceKind) -> Seq<Seq<char>> {
    match kind {
        ReferenceKind::ShipLog => ship_log_reference(planet),
        ReferenceKind::Dialogue => listed_texts(planet, "Props"@, "dialogue"@, "xmlFile"@),
        ReferenceKind::TranslatorText => listed_texts(
            planet,
            "Props"@,
            "translatorText"@,
            "xmlFile"@,
        ),
        ReferenceKind::Remote => listed_texts(
            planet,
            "Props"@,
            "remotes"@,
            "whiteboard/nomaiText/xmlFile"@,
        ),
    }
}

/// The documents of one kind that the text of a planet config names; none
/// where the text is not JSON.
pub open spec fn references_of_text(contents: Seq<char>, kind: ReferenceKind) -> Seq<Seq<char>> {
    match json_of_text(contents) {
        Some(planet) => references_of(planet, kind),
        None => Seq::empty(),
    }
}

/// The documents of one kind that some planet configs name, config by config.
pub open spec fn gathered_references(files: Seq<ProjectFileView>, kind: ReferenceKind) -> Seq<
    Seq<char>,
>
    decreases files.len(),
{
    if files.len() == 0 {
        Seq::empty()
    } else {
        gathered_references(files.drop_last(), kind) + references_of_text(
            files.last().contents,
            kind,
        )
    }
}

/// Whether `text` ends with `suffix`.
pub open spec fn ends_with(text: Seq<char>, suffix: Seq<char>) -> bool {
    text.len() >= suffix.len() && text.skip(text.len() - suffix.len()) == suffix
}

/// The name of the star system whose config has the URI `uri`: what stands
/// behind the last `/`, without a `.json` at its end.
pub open spec fn system_name(uri: Seq<char>) -> Seq<char> {
    let name = split_by(uri, '/').last();
    if ends_with(name, ".json"@) {
        name.take(name.len() - ".json"@.len())
    } else {
        name
    }
}

/// The names of the star systems of some configs, config by config.
pub open spec fn system_names(files: Seq<ProjectFileView>) -> Seq<Seq<char>> {
    Seq::new(files.len(), |i: int| system_name(files[i].uri))
}

/// The documents of one kind that a planet config names.
pub fn read_references(planet: &Json, kind: ReferenceKind) -> (r: Vec<String>)
    ensures
        views(r@) == references_of(*planet, kind),
{
    match kind {
        ReferenceKind::ShipLog => {
            let mut found: Vec<String> = Vec::new();
            assert(views(found@) =~= Seq::<Seq<char>>::empty());
            match planet.get("ShipLog") {
                Some(module) => match module.get("xmlFile") {
                    Some(file) => match file.as_str() {
                        Some(path) => {
                            let text = path.clone();
                            proof {
                                lemma_views_push(found@, text);
                                assert(Seq::<Seq<char>>::empty().push(text@) =~= seq![text@]);
                            }
                            found.push(text);
                        },
                        None => {},
                    },
                    None => {},
                },
                None => {},
            }
            found
        },
        ReferenceKind::Dialogue => planet.collect_listed_texts("Props", "dialogue", "xmlFile"),
        ReferenceKind::TranslatorText => planet.collect_listed_texts(
            "Props",
            "translatorText",
            "xmlFile",
        ),
        ReferenceKind::Remote => planet.collect_listed_texts(
            "Props",
            "remotes",
            "whiteboard/nomaiText/xmlFile",
        ),
    }
}

/// The documents of one kind that the planet configs `files` name. A config
/// that is not JSON names none.
pub fn gather_references(files: &ProjectFiles, kind: ReferenceKind) -> (r: Vec<String>)
    ensures
        views(r@) == gathered_references(views(files@), kind),
{
    let mut found: Vec<String> = Vec::new();
    let mut i: usize = 0;
    assert(views(found@) =~= Seq::<Seq<char>>::empty());
    assert(views(files@).take(0) =~= Seq::<ProjectFileView>::empty());
    while i < files.len()
        invariant
            i <= files@.len(),
            views(found@) == gathered_references(views(files@).take(i as int), kind),
        decreases files@.len() - i,
    {
        proof {
            assert(views(files@).take(i + 1).drop_last() =~= views(files@).take(i as int));
            assert(views(files@).take(i + 1).last() == files@[i as int]@);
        }
        match Json::parse(files[i].contents.as_str()) {
            Some(planet) => {
                let mut named = read_references(&planet, kind);
                proof {
                    lemma_views_add(found@, named@);
                }
                found.append(&mut named);
            },
            None => {
                assert(views(found@) + Seq::<Seq<char>>::empty() =~= views(found@));
            },
        }
        i += 1;
    }
    assert(views(files@).take(files@.len() as int) =~= views(files@));
    found
}

/// The name of the star system whose config has the URI `uri`.
pub fn system_name_of(uri: &str) -> (r: String)
    ensures
        r@ == system_name(uri@),
{
    let parts = split_text(uri, '/');
    let name = &parts[parts.len() - 1];
    let count: usize = name.as_str().unicode_len();
    proof {
        reveal_strlit(".json");
        assert(".json"@.len() == 5);
        assert(name@ == split_by(uri@, '/').last());
        if count >= 5 {
            assert(name@.skip(count - 5) =~= name@.subrange(count - 5, count as int));
            assert(name@.take(count - 5) =~= name@.subrange(0, count - 5));
        }
        assert(name@.subrange(0, count as int) =~= name@);
    }
    if count >= 5 && same_text(name.as_str().substring_char(count - 5, count), ".json") {
        String::from_str(name.as_str().substring_char(0, count - 5))
    } else {
        name.clone()
    }
}

impl Project {
    /// The ship-log documents that the planets name, by their paths below the
    /// project root, planet by planet.
    pub fn find_ship_logs(&self) -> (r: Vec<String>)
        ensures
            views(r@) == gathered_references(self@.planet_files, ReferenceKind::ShipLog),
    {
        gather_references(&self.planet_files, ReferenceKind::ShipLog)
    }

    /// The dialogue documents that the planets name, by their paths below the
    /// project root, planet by planet.
    pub fn find_dialogue(&self) -> (r: Vec<String>)
        ensures
            views(r@) == gathered_references(self@.planet_files, ReferenceKind::Dialogue),
    {
        gather_references(&self.planet_files, ReferenceKind::Dialogue)
    }

    /// The text documents that the planets name, by their paths below the
    /// project root: the translator texts of all planets, then the whiteboard
    /// texts of their remotes.
    pub fn find_text(&self) -> (r: Vec<String>)
        ensures
            views(r@) == gathered_references(self@.planet_files, ReferenceKind::TranslatorText)
                + gathered_references(self@.planet_files, ReferenceKind::Remote),
    {
        let mut found = gather_references(&self.planet_files, ReferenceKind::TranslatorText);
        let mut remotes = gather_references(&self.planet_files, ReferenceKind::Remote);
        proof {
            lemma_views_add(found@, remotes@);
        }
        found.append(&mut remotes);
        found
    }

    /// The names of the star systems of the project: for each star-system
    /// config the name of its file, without the `.json`.
    pub fn find_all_systems(&self) -> (r: Vec<String>)
        ensures
            views(r@) == system_names(self@.system_files),
    {
        let mut names: Vec<String> = Vec::new();
        let mut i: usize = 0;
        while i < self.system_files.len()
            invariant
                i <= self.system_files@.len(),
                views(names@) == system_names(self@.system_files).take(i as int),
            decreases self.system_files@.len() - i,
        {
            let name = system_name_of(self.system_files[i].id.uri.as_str());
            proof {
                lemma_views_push(names@, name);
                assert(system_names(self@.system_files).take(i as int).push(name@)
                    =~= system_names(self@.system_files).take(i + 1));
            }
            names.push(name);
            i += 1;
        }
        assert(system_names(self@.system_files).take(self.system_files@.len() as int)
            =~= system_names(self@.system_files));
        names
    }
}

} // verus!
