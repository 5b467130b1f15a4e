//! The store of tracked files: five categories, each file at one version.

use vstd::prelude::*;
use vstd::string::*;
use crate::diagnostics::DocumentId;
use crate::text::{same_text, views};

pub mod discovery;

verus! {

/// A file under management: its identifier and version, and its full text.
#[derive(Debug)]
pub struct ProjectFile {
    pub id: DocumentId,
    pub contents: String,
}

/// What a `ProjectFile` holds.
pub struct ProjectFileView {
    pub uri: Seq<char>,
    pub version: i32,
    pub contents: Seq<char>,
}

impl View for ProjectFile {
    type V = ProjectFileView;

    open spec fn view(&self) -> ProjectFileView {
        ProjectFileView { uri: self.id.uri@, version: self.id.version, contents: self.contents@ }
    }
}

pub type ProjectFiles = Vec<ProjectFile>;

/// `lsp_types::Url`, as a value that is handed on.
#[verifier::external_type_specification]
#[verifier::external_body]
pub struct ExUrl(lsp_types::Url);

/// `Url::parse`: the URL that a text is, if it is one.
#[verifier::external_body]
fn parse_url(uri: &str) -> Option<lsp_types::Url> {
    lsp_types::Url::parse(uri).ok()
}

/// `Url::to_file_path`: the path on this machine that a URL names, if it names
/// one and the path is UTF-8.
#[verifier::external_body]
fn url_to_file_path(url: &lsp_types::Url) -> Option<String> {
    url.to_file_path().ok()?.to_str().map(|p| p.to_string())
}

/// `Path::strip_prefix`: `path` without the leading `base`, if it starts with
/// it.
#[verifier::external_body]
fn strip_path_prefix(path: &str, base: &str) -> Option<String> {
    std::path::Path::new(path).strip_prefix(base).ok().map(|p| p.to_string_lossy().to_string())
}

impl ProjectFile {
    /// The file `url` at `version` with the text `contents`.
    pub fn new(url: String, version: i32, contents: String) -> (r: Self)
        ensures
            r.id.uri == url,
            r.id.version == version,
            r.contents == contents,
    {
        Self { id: DocumentId { uri: url, version }, contents }
    }

    /// A file without text, for where only a file's place matters.
    pub fn dummy() -> (r: Self)
        ensures
            r@.uri == "file:///dummy"@,
            r@.version == 0,
            r@.contents.len() == 0,
    {
        Self::new(String::from_str("file:///dummy"), 0, String::new())
    }

    /// The path of the file below `root_path`, where its URI names a path of
    /// this machine that lies below it. What counts as a path is the
    /// machine's matter.
    pub fn get_relative(&self, root_path: &str) -> Option<String> {
        match parse_url(self.id.uri.as_str()) {
            Some(url) => match url_to_file_path(&url) {
                Some(path) => strip_path_prefix(path.as_str(), root_path),
                None => None,
            },
            None => None,
        }
    }
}

/// The five categories of tracked files.
#[derive(Clone, Copy, Debug, PartialEq, Eq, Structural)]
pub enum FileCategory {
    Planet,
    System,
    ShipLog,
    Dialogue,
    Text,
}

/// The project: its root and its tracked files by category, and the
/// documents that carried a diagnostic when last reported.
#[derive(Debug)]
pub struct Project {
    pub root_path: String,
    pub planet_files: ProjectFiles,
    pub system_files: ProjectFiles,
    pub ship_log_files: ProjectFiles,
    pub dialogue_files: ProjectFiles,
    pub text_files: ProjectFiles,
    pub files_with_diagnostics: Vec<DocumentId>,
}

/// What a `Project` holds.
pub struct ProjectView {
    pub root_path: Seq<char>,
    pub planet_files: Seq<ProjectFileView>,
    pub system_files: Seq<ProjectFileView>,
    pub ship_log_files: Seq<ProjectFileView>,
    pub dialogue_files: Seq<ProjectFileView>,
    pub text_files: Seq<ProjectFileView>,
    pub files_with_diagnostics: Seq<crate::diagnostics::DocumentIdView>,
}

impl View for Project {
    type V = ProjectView;

    open spec fn view(&self) -> ProjectView {
        ProjectView {
            root_path: self.root_path@,
            planet_files: views(self.planet_files@),
            system_files: views(self.system_files@),
            ship_log_files: views(self.ship_log_files@),
            dialogue_files: views(self.dialogue_files@),
            text_files: views(self.text_files@),
            files_with_diagnostics: views(self.files_with_diagnostics@),
        }
    }
}

impl ProjectView {
    /// All tracked files: planets, systems, ship logs, dialogue, text, each
    /// category in its own order.
    pub open spec fn all_files(self) -> Seq<ProjectFileView> {
        self.planet_files + self.system_files + self.ship_log_files + self.dialogue_files
            + self.text_files
    }

    /// The files of one category.
    pub open spec fn category(self, category: FileCategory) -> Seq<ProjectFileView> {
        match category {
            FileCategory::Planet => self.planet_files,
            FileCategory::System => self.system_files,
            FileCategory::ShipLog => self.ship_log_files,
            FileCategory::Dialogue => self.dialogue_files,
            FileCategory::Text => self.text_files,
        }
    }

    /// The project with other files in one category.
    pub open spec fn with_category(
        self,
        category: FileCategory,
        files: Seq<ProjectFileView>,
    ) -> ProjectView {
        match category {
            FileCategory::Planet => ProjectView { planet_files: files, ..self },
            FileCategory::System => ProjectView { system_files: files, ..self },
            FileCategory::ShipLog => ProjectView { ship_log_files: files, ..self },
            FileCategory::Dialogue => ProjectView { dialogue_files: files, ..self },
            FileCategory::Text => ProjectView { text_files: files, ..self },
        }
    }
}

/// No two of `files` have the same URI.
pub open spec fn distinct_uris(files: Seq<ProjectFileView>) -> bool {
    forall|i: int, j: int| 0 <= i < j < files.len() ==> files[i].uri != files[j].uri
}

impl ProjectView {
    /// Within each category there is at most one file for a URI.
    pub open spec fn one_file_per_uri(self) -> bool {
        &&& distinct_uris(self.planet_files)
        &&& distinct_uris(self.system_files)
        &&& distinct_uris(self.ship_log_files)
        &&& distinct_uris(self.dialogue_files)
        &&& distinct_uris(self.text_files)
    }
}

/// The index of the first of `files` that an edit of `uri` at `version`
/// replaces: one with that URI and a lower version.
pub open spec fn first_older(files: Seq<ProjectFileView>, uri: Seq<char>, version: i32) -> Option<
    int,
>
    decreases files.len(),
{
    if files.len() == 0 {
        None
    } else {
        match first_older(files.drop_last(), uri, version) {
            Some(i) => Some(i),
            None => if files.last().uri == uri && version > files.last().version {
                Some(files.len() - 1)
            } else {
                None
            },
        }
    }
}

/// `first_older` gives the first index whose file has the URI and a lower
/// version, and nothing exactly when there is none.
pub proof fn lemma_first_older(files: Seq<ProjectFileView>, uri: Seq<char>, version: i32)
    ensures
        match first_older(files, uri, version) {
            Some(i) => {
                &&& 0 <= i < files.len()
                &&& files[i].uri == uri
                &&& version > files[i].version
                &&& forall|j: int| 0 <= j < i ==> !(files[j].uri == uri && version > files[j].version)
            },
            None => forall|j: int|
                0 <= j < files.len() ==> !(files[j].uri == uri && version > files[j].version),
        },
    decreases files.len(),
{
    if files.len() > 0 {
        let front = files.drop_last();
        lemma_first_older(front, uri, version);
        match first_older(front, uri, version) {
            Some(i) => {
                assert(front[i] == files[i]);
                assert forall|j: int| 0 <= j < i implies !(files[j].uri == uri && version
                    > files[j].version) by {
                    assert(front[j] == files[j]);
                }
            },
            None => {
                assert forall|j: int| 0 <= j < files.len() - 1 implies !(files[j].uri == uri
                    && version > files[j].version) by {
                    assert(front[j] == files[j]);
                }
            },
        }
    }
}

/// The index of the first of `files` with the URI `uri`.
pub open spec fn first_with_uri(files: Seq<ProjectFileView>, uri: Seq<char>) -> Option<int>
    decreases files.len(),
{
    if files.len() == 0 {
        None
    } else {
        match first_with_uri(files.drop_last(), uri) {
            Some(i) => Some(i),
            None => if files.last().uri == uri {
                Some(files.len() - 1)
            } else {
                None
            },
        }
    }
}

/// `first_with_uri` gives the first index whose file has the URI, and nothing
/// exactly when there is none.
pub proof fn lemma_first_with_uri(files: Seq<ProjectFileView>, uri: Seq<char>)
    ensures
        match first_with_uri(files, uri) {
            Some(i) => {
                &&& 0 <= i < files.len()
                &&& files[i].uri == uri
                &&& forall|j: int| 0 <= j < i ==> files[j].uri != uri
            },
            None => forall|j: int| 0 <= j < files.len() ==> files[j].uri != uri,
        },
    decreases files.len(),
{
    if files.len() > 0 {
        let front = files.drop_last();
        lemma_first_with_uri(front, uri);
        match first_with_uri(front, uri) {
            Some(i) => {
                assert(front[i] == files[i]);
                assert forall|j: int| 0 <= j < i implies files[j].uri != uri by {
                    assert(front[j] == files[j]);
                }
            },
            None => {
                assert forall|j: int| 0 <= j < files.len() - 1 implies files[j].uri != uri by {
                    assert(front[j] == files[j]);
                }
            },
        }
    }
}

/// `files` after an edit of `id` with the text `contents`: the first file
/// with that URI and a lower version takes the new version and text.
pub open spec fn files_after_add(
    files: Seq<ProjectFileView>,
    uri: Seq<char>,
    version: i32,
    contents: Seq<char>,
) -> Seq<ProjectFileView> {
    match first_older(files, uri, version) {
        Some(i) => files.update(i, ProjectFileView { uri, version, contents }),
        None => files,
    }
}

/// `files` after `uri` was closed: the first file with that URI is at
/// version 0, with the text read from disk where there is one.
pub open spec fn files_after_remove(
    files: Seq<ProjectFileView>,
    uri: Seq<char>,
    disk: Option<Seq<char>>,
) -> Seq<ProjectFileView> {
    match first_with_uri(files, uri) {
        Some(i) => files.update(
            i,
            ProjectFileView {
                uri: files[i].uri,
                version: 0,
                contents: match disk {
                    Some(text) => text,
                    None => files[i].contents,
                },
            },
        ),
        None => files,
    }
}

/// `files` after the file `uri` was read from disk with the text `contents`:
/// the file comes behind the others at version 0, unless a file with that URI
/// is there already; then the files stay as they are.
pub open spec fn files_after_track(
    files: Seq<ProjectFileView>,
    uri: Seq<char>,
    contents: Seq<char>,
) -> Seq<ProjectFileView> {
    match first_with_uri(files, uri) {
        Some(_) => files,
        None => files.push(ProjectFileView { uri, version: 0, contents }),
    }
}

/// Tracking a file leaves no URI twice among files that held none twice.
pub proof fn lemma_track_keeps_distinct_uris(
    files: Seq<ProjectFileView>,
    uri: Seq<char>,
    contents: Seq<char>,
)
    requires
        distinct_uris(files),
    ensures
        distinct_uris(files_after_track(files, uri, contents)),
{
    lemma_first_with_uri(files, uri);
}

/// The order in which an edit or a close looks through the categories.
pub open spec fn search_order() -> Seq<FileCategory> {
    seq![
        FileCategory::Dialogue,
        FileCategory::ShipLog,
        FileCategory::System,
        FileCategory::Planet,
        FileCategory::Text,
    ]
}

/// The first category, from the `from`-th of the search order on, in which an
/// edit of `uri` at `version` finds a file to replace.
pub open spec fn category_to_add(project: ProjectView, uri: Seq<char>, version: i32, from: int)
    -> Option<FileCategory>
    decreases search_order().len() - from,
{
    if from < 0 || from >= search_order().len() {
        None
    } else if first_older(project.category(search_order()[from]), uri, version) is Some {
        Some(search_order()[from])
    } else {
        category_to_add(project, uri, version, from + 1)
    }
}

/// The first category, from the `from`-th of the search order on, that holds
/// a file with the URI `uri`.
pub open spec fn category_to_remove(project: ProjectView, uri: Seq<char>, from: int) -> Option<
    FileCategory,
>
    decreases search_order().len() - from,
{
    if from < 0 || from >= search_order().len() {
        None
    } else if first_with_uri(project.category(search_order()[from]), uri) is Some {
        Some(search_order()[from])
    } else {
        category_to_remove(project, uri, from + 1)
    }
}

/// The project after the editor opened or changed `uri` at `version` with the
/// text `contents`.
pub open spec fn project_after_open(
    project: ProjectView,
    uri: Seq<char>,
    version: i32,
    contents: Seq<char>,
) -> ProjectView {
    match category_to_add(project, uri, version, 0) {
        Some(c) => project.with_category(
            c,
            files_after_add(project.category(c), uri, version, contents),
        ),
        None => project,
    }
}

/// The project after the editor closed `uri`, `disk` being what was read from
/// disk for it.
pub open spec fn project_after_close(project: ProjectView, uri: Seq<char>, disk: Option<Seq<char>>)
    -> ProjectView {
    match category_to_remove(project, uri, 0) {
        Some(c) => project.with_category(c, files_after_remove(project.category(c), uri, disk)),
        None => project,
    }
}

/// An edit keeps every file in its category, at its place and under its URI,
/// and lowers no version: a version changes only through an edit of that
/// very document.
pub proof fn lemma_open_keeps_files(
    project: ProjectView,
    uri: Seq<char>,
    version: i32,
    contents: Seq<char>,
    category: FileCategory,
)
    ensures
        ({
            let after = project_after_open(project, uri, version, contents);
            &&& after.category(category).len() == project.category(category).len()
            &&& forall|i: int|
                0 <= i < project.category(category).len() ==> {
                    let new = #[trigger] after.category(category)[i];
                    let old = project.category(category)[i];
                    &&& new.uri == old.uri
                    &&& new.version >= old.version
                    &&& new != old ==> old.uri == uri && new.version == version && new.contents
                        == contents
                }
        }),
{
    match category_to_add(project, uri, version, 0) {
        Some(c) => {
            lemma_first_older(project.category(c), uri, version);
        },
        None => {},
    }
}

/// A close keeps every file in its category, at its place and under its URI.
/// The file that it changes has the closed URI and is at version 0
/// afterwards.
pub proof fn lemma_close_keeps_files(
    project: ProjectView,
    uri: Seq<char>,
    disk: Option<Seq<char>>,
    category: FileCategory,
)
    ensures
        ({
            let after = project_after_close(project, uri, disk);
            &&& after.category(category).len() == project.category(category).len()
            &&& forall|i: int|
                0 <= i < project.category(category).len() ==> {
                    let new = #[trigger] after.category(category)[i];
                    let old = project.category(category)[i];
                    &&& new.uri == old.uri
                    &&& new != old ==> old.uri == uri && new.version == 0
                }
        }),
{
    match category_to_remove(project, uri, 0) {
        Some(c) => {
            lemma_first_with_uri(project.category(c), uri);
        },
        None => {},
    }
}

/// An edit and a close keep the project at one file for a URI within each
/// category.
pub proof fn lemma_open_and_close_keep_one_file_per_uri(
    project: ProjectView,
    uri: Seq<char>,
    version: i32,
    contents: Seq<char>,
    disk: Option<Seq<char>>,
)
    requires
        project.one_file_per_uri(),
    ensures
        project_after_open(project, uri, version, contents).one_file_per_uri(),
        project_after_close(project, uri, disk).one_file_per_uri(),
{
    lemma_open_keeps_files(project, uri, version, contents, FileCategory::Planet);
    lemma_open_keeps_files(project, uri, version, contents, FileCategory::System);
    lemma_open_keeps_files(project, uri, version, contents, FileCategory::ShipLog);
    lemma_open_keeps_files(project, uri, version, contents, FileCategory::Dialogue);
    lemma_open_keeps_files(project, uri, version, contents, FileCategory::Text);
    lemma_close_keeps_files(project, uri, disk, FileCategory::Planet);
    lemma_close_keeps_files(project, uri, disk, FileCategory::System);
    lemma_close_keeps_files(project, uri, disk, FileCategory::ShipLog);
    lemma_close_keeps_files(project, uri, disk, FileCategory::Dialogue);
    lemma_close_keeps_files(project, uri, disk, FileCategory::Text);
}

impl Default for Project {
    /// A project without files, rooted nowhere.
    fn default() -> (r: Self)
        ensures
            r@.root_path.len() == 0,
            r@.all_files().len() == 0,
            r@.files_with_diagnostics.len() == 0,
            r@.one_file_per_uri(),
    {
        Project::new()
    }
}

impl Project {
    /// A project without files, rooted nowhere.
    pub fn new() -> (r: Self)
        ensures
            r@.root_path.len() == 0,
            r@.all_files().len() == 0,
            r@.files_with_diagnostics.len() == 0,
            r@.one_file_per_uri(),
    {
        Project {
            root_path: String::new(),
            planet_files: Vec::new(),
            system_files: Vec::new(),
            ship_log_files: Vec::new(),
            dialogue_files: Vec::new(),
            text_files: Vec::new(),
            files_with_diagnostics: Vec::new(),
        }
    }

    /// Takes in a file read from disk, at version 0, behind the others of its
    /// category. A file whose URI the category holds already is not taken in
    /// again: the category stays as it is, so that it never holds two files
    /// for one URI.
    pub fn track(&mut self, category: FileCategory, url: String, contents: String)
        ensures
            final(self)@ == old(self)@.with_category(
                category,
                files_after_track(old(self)@.category(category), url@, contents@),
            ),
            old(self)@.one_file_per_uri() ==> final(self)@.one_file_per_uri(),
    {
        proof {
            if self@.one_file_per_uri() {
                lemma_track_keeps_distinct_uris(self@.category(category), url@, contents@);
            }
        }
        let known = match category {
            FileCategory::Planet => Self::has_uri(&self.planet_files, url.as_str()),
            FileCategory::System => Self::has_uri(&self.system_files, url.as_str()),
            FileCategory::ShipLog => Self::has_uri(&self.ship_log_files, url.as_str()),
            FileCategory::Dialogue => Self::has_uri(&self.dialogue_files, url.as_str()),
            FileCategory::Text => Self::has_uri(&self.text_files, url.as_str()),
        };
        if known {
            return ;
        }
        let file = ProjectFile::new(url, 0, contents);
        proof {
            crate::text::lemma_views_push(self.planet_files@, file);
            crate::text::lemma_views_push(self.system_files@, file);
            crate::text::lemma_views_push(self.ship_log_files@, file);
            crate::text::lemma_views_push(self.dialogue_files@, file);
            crate::text::lemma_views_push(self.text_files@, file);
        }
        match category {
            FileCategory::Planet => self.planet_files.push(file),
            FileCategory::System => self.system_files.push(file),
            FileCategory::ShipLog => self.ship_log_files.push(file),
            FileCategory::Dialogue => self.dialogue_files.push(file),
            FileCategory::Text => self.text_files.push(file),
        }
    }

    /// Looks in `files` for the first file that an edit of `id` replaces, and
    /// gives it the new version and text. Says whether it found one.
    pub fn check_file_add(files: &mut ProjectFiles, id: &DocumentId, contents: &str) -> (r: bool)
        ensures
            views(final(files)@) == files_after_add(
                views(old(files)@),
                id.uri@,
                id.version,
                contents@,
            ),
            r == (first_older(views(old(files)@), id.uri@, id.version) is Some),
    {
        let ghost before = views(files@);
        let mut i: usize = 0;
        while i < files.len()
            invariant
                i <= files.len(),
                views(files@) == before,
                before == views(old(files)@),
                forall|j: int|
                    0 <= j < i ==> !(before[j].uri == id.uri@ && id.version > before[j].version),
            decreases files.len() - i,
        {
            if files[i].id.uri == id.uri && id.version > files[i].id.version {
                assert(before[i as int] == files@[i as int]@);
                proof {
                    lemma_first_older(before, id.uri@, id.version);
                }
                files[i] = ProjectFile { id: id.duplicate(), contents: String::from_str(contents) };
                assert(views(files@) =~= before.update(
                    i as int,
                    ProjectFileView { uri: id.uri@, version: id.version, contents: contents@ },
                ));
                return true;
            }
            assert(before[i as int] == files@[i as int]@);
            i += 1;
        }
        proof {
            lemma_first_older(before, id.uri@, id.version);
        }
        false
    }

    /// Looks in `files` for the first file with the URI `url`, sets it back to
    /// version 0 and gives it the text `disk`, if there is one. Says whether it
    /// found the file.
    pub fn check_file_remove(files: &mut ProjectFiles, url: &str, disk: Option<String>) -> (r:
        bool)
        ensures
            views(final(files)@) == files_after_remove(
                views(old(files)@),
                url@,
                crate::xml::opt_text(disk),
            ),
            r == (first_with_uri(views(old(files)@), url@) is Some),
    {
        let ghost before = views(files@);
        let ghost read = crate::xml::opt_text(disk);
        let mut i: usize = 0;
        while i < files.len()
            invariant
                i <= files.len(),
                views(files@) == before,
                before == views(old(files)@),
                read == crate::xml::opt_text(disk),
                forall|j: int| 0 <= j < i ==> before[j].uri != url@,
            decreases files.len() - i,
        {
            assert(before[i as int] == files@[i as int]@);
            if same_text(url, files[i].id.uri.as_str()) {
                proof {
                    lemma_first_with_uri(before, url@);
                }
                files[i].id.version = 0;
                match disk {
                    Some(text) => {
                        files[i].contents = text;
                    },
                    None => {},
                }
                assert(views(files@) =~= files_after_remove(before, url@, read));
                return true;
            }
            i += 1;
        }
        proof {
            lemma_first_with_uri(before, url@);
        }
        false
    }

    /// Takes in what the editor holds of a document: the first category, in the
    /// search order, with a file of that URI at a lower version has that file
    /// replaced. Without such a file nothing changes.
    pub fn open_file(&mut self, id: DocumentId, contents: &str)
        ensures
            final(self)@ == project_after_open(old(self)@, id.uri@, id.version, contents@),
            old(self)@.one_file_per_uri() ==> final(self)@.one_file_per_uri(),
    {
        reveal_with_fuel(category_to_add, 6);
        proof {
            if self@.one_file_per_uri() {
                lemma_open_and_close_keep_one_file_per_uri(
                    self@,
                    id.uri@,
                    id.version,
                    contents@,
                    None,
                );
            }
        }
        if Self::check_file_add(&mut self.dialogue_files, &id, contents) {
            return ;
        }
        if Self::check_file_add(&mut self.ship_log_files, &id, contents) {
            return ;
        }
        if Self::check_file_add(&mut self.system_files, &id, contents) {
            return ;
        }
        if Self::check_file_add(&mut self.planet_files, &id, contents) {
            return ;
        }
        let _ = Self::check_file_add(&mut self.text_files, &id, contents);
    }

    /// Whether a close of `url` will find a file.
    pub fn is_tracked(&self, url: &str) -> (r: bool)
        ensures
            r == (category_to_remove(self@, url@, 0) is Some),
    {
        reveal_with_fuel(category_to_remove, 6);
        Self::has_uri(&self.dialogue_files, url) || Self::has_uri(&self.ship_log_files, url)
            || Self::has_uri(&self.system_files, url) || Self::has_uri(&self.planet_files, url)
            || Self::has_uri(&self.text_files, url)
    }

    fn has_uri(files: &ProjectFiles, url: &str) -> (r: bool)
        ensures
            r == (first_with_uri(views(files@), url@) is Some),
    {
        let ghost all = views(files@);
        proof {
            lemma_first_with_uri(all, url@);
        }
        let mut i: usize = 0;
        while i < files.len()
            invariant
                i <= files.len(),
                all == views(files@),
                first_with_uri(all, url@) is Some ==> all[first_with_uri(all, url@).unwrap()].uri
                    == url@,
                forall|j: int| 0 <= j < i ==> all[j].uri != url@,
                (forall|j: int| 0 <= j < all.len() ==> all[j].uri != url@) ==> first_with_uri(
                    all,
                    url@,
                ) is None,
                (exists|j: int| 0 <= j < all.len() && all[j].uri == url@) ==> first_with_uri(
                    all,
                    url@,
                ) is Some,
            decreases files.len() - i,
        {
            assert(all[i as int] == files@[i as int]@);
            if same_text(url, files[i].id.uri.as_str()) {
                return true;
            }
            i += 1;
        }
        false
    }

    /// Lets go of what the editor held of a document: the first file with that
    /// URI, in the search order of the categories, is back at version 0, with
    /// the text `disk` that was read from disk, or its last text where the
    /// read failed.
    pub fn close_file(&mut self, url: &str, disk: Option<String>)
        ensures
            final(self)@ == project_after_close(old(self)@, url@, crate::xml::opt_text(disk)),
            old(self)@.one_file_per_uri() ==> final(self)@.one_file_per_uri(),
    {
        reveal_with_fuel(category_to_remove, 6);
        proof {
            if self@.one_file_per_uri() {
                lemma_open_and_close_keep_one_file_per_uri(
                    self@,
                    url@,
                    0,
                    Seq::empty(),
                    crate::xml::opt_text(disk),
                );
            }
        }
        if Self::has_uri(&self.dialogue_files, url) {
            let _ = Self::check_file_remove(&mut self.dialogue_files, url, disk);
        } else if Self::has_uri(&self.ship_log_files, url) {
            let _ = Self::check_file_remove(&mut self.ship_log_files, url, disk);
        } else if Self::has_uri(&self.system_files, url) {
            let _ = Self::check_file_remove(&mut self.system_files, url, disk);
        } else if Self::has_uri(&self.planet_files, url) {
            let _ = Self::check_file_remove(&mut self.planet_files, url, disk);
        } else {
            let _ = Self::check_file_remove(&mut self.text_files, url, disk);
        }
    }

    /// All tracked files: planets, systems, ship logs, dialogue, text, each
    /// category in its own order.
    pub fn iter_all(&self) -> (r: Vec<&ProjectFile>)
        ensures
            r@.len() == self@.all_files().len(),
            forall|i: int| 0 <= i < r@.len() ==> (#[trigger] r@[i])@ == self@.all_files()[i],
    {
        let mut all: Vec<&ProjectFile> = Vec::new();
        Self::push_all(&mut all, &self.planet_files);
        Self::push_all(&mut all, &self.system_files);
        Self::push_all(&mut all, &self.ship_log_files);
        Self::push_all(&mut all, &self.dialogue_files);
        Self::push_all(&mut all, &self.text_files);
        proof {
            let a = views(self.planet_files@);
            let b = views(self.system_files@);
            let c = views(self.ship_log_files@);
            let d = views(self.dialogue_files@);
            let e = views(self.text_files@);
            assert forall|i: int| 0 <= i < all@.len() implies (#[trigger] all@[i])@
                == self@.all_files()[i] by {
                if i < a.len() {
                    assert(*all@[0 + i] == self.planet_files@[i]);
                } else if i < a.len() + b.len() {
                    assert(*all@[a.len() + (i - a.len())] == self.system_files@[i - a.len()]);
                } else if i < a.len() + b.len() + c.len() {
                    assert(*all@[a.len() + b.len() + (i - a.len() - b.len())]
                        == self.ship_log_files@[i - a.len() - b.len()]);
                } else if i < a.len() + b.len() + c.len() + d.len() {
                    assert(*all@[a.len() + b.len() + c.len() + (i - a.len() - b.len() - c.len())]
                        == self.dialogue_files@[i - a.len() - b.len() - c.len()]);
                } else {
                    assert(*all@[a.len() + b.len() + c.len() + d.len() + (i - a.len() - b.len()
                        - c.len() - d.len())] == self.text_files@[i - a.len() - b.len() - c.len()
                        - d.len()]);
                }
            }
        }
        all
    }

    fn push_all<'a>(all: &mut Vec<&'a ProjectFile>, files: &'a ProjectFiles)
        ensures
            final(all)@.len() == old(all)@.len() + files@.len(),
            forall|i: int| 0 <= i < old(all)@.len() ==> final(all)@[i] == old(all)@[i],
            forall|i: int|
                0 <= i < files@.len() ==> *(#[trigger] final(all)@[old(all)@.len() + i])
                    == files@[i],
    {
        let mut i: usize = 0;
        while i < files.len()
            invariant
                i <= files.len(),
                all@.len() == old(all)@.len() + i,
                forall|k: int| 0 <= k < old(all)@.len() ==> all@[k] == old(all)@[k],
                forall|k: int| 0 <= k < i ==> *(#[trigger] all@[old(all)@.len() + k]) == files@[k],
            decreases files.len() - i,
        {
            all.push(&files[i]);
            i += 1;
        }
    }
}

} // verus!
