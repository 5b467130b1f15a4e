//! Conversions between the positions of the parsers and those of diagnostics.

use vstd::prelude::*;
use vstd::string::*;
use crate::diagnostics::{Position, Range};
use crate::json::Json;
use crate::text::{lemma_views_add, lemma_views_push, same_text, split_by, split_text, views};
use crate::xml::TextPos;

pub mod error_codes;

verus! {

/// A place in a JSON text: line and character counted from 0, and the offset.
#[derive(Clone, Copy, Debug, PartialEq, Eq, Structural)]
pub struct JsonPosition {
    pub line: usize,
    pub char: usize,
    pub idx: usize,
}

/// A stretch of a JSON text.
#[derive(Clone, Copy, Debug, PartialEq, Eq, Structural)]
pub struct JsonRange {
    pub start: JsonPosition,
    pub end: JsonPosition,
}

/// The place of a diagnostic for a place of an XML text: one less in line and
/// in character.
pub open spec fn xml_diag_position(pos: TextPos) -> Position {
    Position { line: (pos.row - 1) as u32, character: (pos.col - 1) as u32 }
}

/// The range of a diagnostic between two places of an XML text.
pub open spec fn xml_diag_range(start_pos: TextPos, end_pos: TextPos) -> Range {
    Range { start: xml_diag_position(start_pos), end: xml_diag_position(end_pos) }
}

/// The range of a diagnostic between two places of an XML text. The XML
/// places count from 1, those of a diagnostic from 0.
pub fn xml_range_to_diag_range(start_pos: TextPos, end_pos: TextPos) -> (r: Range)
    requires
        start_pos.row >= 1,
        start_pos.col >= 1,
        end_pos.row >= 1,
        end_pos.col >= 1,
    ensures
        r == xml_diag_range(start_pos, end_pos),
{
    Range {
        start: Position { line: start_pos.row - 1, character: start_pos.col - 1 },
        end: Position { line: end_pos.row - 1, character: end_pos.col - 1 },
    }
}

/// The range of a diagnostic for a stretch of a JSON text: the same lines and
/// characters, each cut to its low 32 bits.
pub open spec fn json_diag_range(range: JsonRange) -> Range {
    Range {
        start: Position { line: range.start.line as u32, character: range.start.char as u32 },
        end: Position { line: range.end.line as u32, character: range.end.char as u32 },
    }
}

/// The range of a diagnostic for a stretch of a JSON text. Lines and
/// characters beyond 32 bits are cut to their low 32 bits.
pub fn json_pos_range_to_diag_range(range: JsonRange) -> (r: Range)
    ensures
        r == json_diag_range(range),
{
    Range {
        start: Position {
            line: #[verifier::truncate] (range.start.line as u32),
            character: #[verifier::truncate] (range.start.char as u32),
        },
        end: Position {
            line: #[verifier::truncate] (range.end.line as u32),
            character: #[verifier::truncate] (range.end.char as u32),
        },
    }
}

/// One step of a path into a JSON document.
#[derive(Debug, PartialEq, Eq)]
pub enum PathType {
    /// The member with this key.
    Object(String),
    /// The item at this index.
    Array(usize),
    /// Every member and every item.
    Wildcard,
    /// Every value below.
    RecursiveWildcard,
}

/// What a `PathType` holds.
pub enum PathTypeView {
    Object(Seq<char>),
    Array(usize),
    Wildcard,
    RecursiveWildcard,
}

impl View for PathType {
    type V = PathTypeView;

    open spec fn view(&self) -> PathTypeView {
        match self {
            PathType::Object(key) => PathTypeView::Object(key@),
            PathType::Array(index) => PathTypeView::Array(*index),
            PathType::Wildcard => PathTypeView::Wildcard,
            PathType::RecursiveWildcard => PathTypeView::RecursiveWildcard,
        }
    }
}

/// The step that a part of a path stands for: `*` for every value, anything
/// else for the member of that name.
pub open spec fn path_step() -> spec_fn(Seq<char>) -> PathTypeView {
    |part: Seq<char>|
        if part == "*"@ {
            PathTypeView::Wildcard
        } else {
            PathTypeView::Object(part)
        }
}

/// The steps of a path: one for each part behind a `/`. What stands before
/// the first `/` is left out.
pub open spec fn json_pos_path(path: Seq<char>) -> Seq<PathTypeView> {
    split_by(path, '/').skip(1).map_values(path_step())
}

/// The steps of a path such as `/Props/details/*/path`.
pub fn json_path_to_json_pos_path(path: &str) -> (r: Vec<PathType>)
    ensures
        views(r@) == json_pos_path(path@),
{
    let parts = split_text(path, '/');
    let ghost all = split_by(path@, '/');
    let mut steps: Vec<PathType> = Vec::new();
    let mut i: usize = 1;
    assert(views(steps@) =~= all.skip(1).take(0).map_values(path_step()));
    while i < parts.len()
        invariant
            1 <= i <= parts@.len(),
            all == views(parts@),
            views(steps@) == all.skip(1).take(i - 1).map_values(path_step()),
        decreases parts@.len() - i,
    {
        let step = if same_text(parts[i].as_str(), "*") {
            PathType::Wildcard
        } else {
            PathType::Object(parts[i].clone())
        };
        proof {
            lemma_views_push(steps@, step);
            assert(all[i as int] == parts@[i as int]@);
            assert(step@ == path_step()(all[i as int]));
            assert(all.skip(1).take(i - 1).map_values(path_step()).push(step@) =~= all.skip(
                1,
            ).take(i as int).map_values(path_step()));
        }
        steps.push(step);
        i += 1;
    }
    assert(all.skip(1).take(parts@.len() - 1) =~= all.skip(1));
    steps
}

/// The schema node that `node` stands for: the definition that its `$ref`
/// names by its last part, where the schema has it; else the node itself.
pub open spec fn resolved(schema: Json, node: Json) -> Json {
    match node.member("$ref"@) {
        Some(reference) => match reference.text() {
            Some(target) => match schema.member("definitions"@) {
                Some(definitions) => match definitions.member(split_by(target, '/').last()) {
                    Some(definition) => definition,
                    None => node,
                },
                None => node,
            },
            None => node,
        },
        None => node,
    }
}

/// The paths below `path` at which the schema node `node` has a string
/// marked with `x_prop`, looking at most `depth` nodes deep.
pub open spec fn schema_paths(
    x_prop: Seq<char>,
    path: Seq<char>,
    schema: Json,
    node: Json,
    depth: nat,
) -> Seq<Seq<char>>
    decreases depth, 0nat,
{
    if depth == 0 {
        Seq::empty()
    } else {
        let node = resolved(schema, node);
        match node.member("type"@) {
            Some(kind) => match kind.text() {
                Some(kind) => if kind == "string"@ {
                    match node.member(x_prop) {
                        Some(flag) => if flag.truth() == Some(true) {
                            seq![path]
                        } else {
                            Seq::empty()
                        },
                        None => Seq::empty(),
                    }
                } else if kind == "object"@ {
                    match node.member("properties"@) {
                        Some(properties) => match properties.members() {
                            Some(members) => property_paths(
                                x_prop,
                                path,
                                schema,
                                members,
                                members.len(),
                                (depth - 1) as nat,
                            ),
                            None => Seq::empty(),
                        },
                        None => Seq::empty(),
                    }
                } else if kind == "array"@ {
                    match node.member("items"@) {
                        Some(items) => schema_paths(
                            x_prop,
                            path + "/*"@,
                            schema,
                            items,
                            (depth - 1) as nat,
                        ),
                        None => Seq::empty(),
                    }
                } else {
                    Seq::empty()
                },
                None => Seq::empty(),
            },
            None => Seq::empty(),
        }
    }
}

/// The marked paths of the first `upto` properties of an object, each below
/// `path` and the name of its property.
pub open spec fn property_paths(
    x_prop: Seq<char>,
    path: Seq<char>,
    schema: Json,
    properties: Seq<(String, Json)>,
    upto: nat,
    depth: nat,
) -> Seq<Seq<char>>
    decreases depth, upto + 1,
{
    if upto == 0 || upto > properties.len() {
        Seq::empty()
    } else {
        let property = properties[upto - 1];
        property_paths(x_prop, path, schema, properties, (upto - 1) as nat, depth) + schema_paths(
            x_prop,
            path + "/"@ + property.0@,
            schema,
            property.1,
            depth,
        )
    }
}

/// Whether the walk through the schema node `node` leaves something out
/// because it lies more than `depth` nodes deep.
pub open spec fn walk_is_cut(schema: Json, node: Json, depth: nat) -> bool
    decreases depth, 0nat,
{
    if depth == 0 {
        true
    } else {
        let node = resolved(schema, node);
        match node.member("type"@) {
            Some(kind) => match kind.text() {
                Some(kind) => if kind == "string"@ {
                    false
                } else if kind == "object"@ {
                    match node.member("properties"@) {
                        Some(properties) => match properties.members() {
                            Some(members) => properties_are_cut(
                                schema,
                                members,
                                members.len(),
                                (depth - 1) as nat,
                            ),
                            None => false,
                        },
                        None => false,
                    }
                } else if kind == "array"@ {
                    match node.member("items"@) {
                        Some(items) => walk_is_cut(schema, items, (depth - 1) as nat),
                        None => false,
                    }
                } else {
                    false
                },
                None => false,
            },
            None => false,
        }
    }
}

/// Whether the walk through one of the first `upto` properties of an object
/// leaves something out.
pub open spec fn properties_are_cut(
    schema: Json,
    properties: Seq<(String, Json)>,
    upto: nat,
    depth: nat,
) -> bool
    decreases depth, upto + 1,
{
    if upto == 0 || upto > properties.len() {
        false
    } else {
        properties_are_cut(schema, properties, (upto - 1) as nat, depth) || walk_is_cut(
            schema,
            properties[upto - 1].1,
            depth,
        )
    }
}

/// A walk that leaves nothing out finds all there is: looking deeper finds
/// the same paths, and leaves nothing out either.
pub proof fn lemma_uncut_walk_is_whole(
    x_prop: Seq<char>,
    path: Seq<char>,
    schema: Json,
    node: Json,
    depth: nat,
    deeper: nat,
)
    requires
        !walk_is_cut(schema, node, depth),
        deeper >= depth,
    ensures
        schema_paths(x_prop, path, schema, node, depth) == schema_paths(
            x_prop,
            path,
            schema,
            node,
            deeper,
        ),
        !walk_is_cut(schema, node, deeper),
    decreases depth, 0nat,
{
    let inner = resolved(schema, node);
    match inner.member("type"@) {
        Some(kind) => match kind.text() {
            Some(kind) => {
                if kind == "string"@ {
                } else if kind == "object"@ {
                    match inner.member("properties"@) {
                        Some(properties) => match properties.members() {
                            Some(members) => {
                                lemma_uncut_properties_are_whole(
                                    x_prop,
                                    path,
                                    schema,
                                    members,
                                    members.len(),
                                    (depth - 1) as nat,
                                    (deeper - 1) as nat,
                                );
                            },
                            None => {},
                        },
                        None => {},
                    }
                } else if kind == "array"@ {
                    match inner.member("items"@) {
                        Some(items) => {
                            lemma_uncut_walk_is_whole(
                                x_prop,
                                path + "/*"@,
                                schema,
                                items,
                                (depth - 1) as nat,
                                (deeper - 1) as nat,
                            );
                        },
                        None => {},
                    }
                }
            },
            None => {},
        },
        None => {},
    }
}

/// The same of the properties of an object.
proof fn lemma_uncut_properties_are_whole(
    x_prop: Seq<char>,
    path: Seq<char>,
    schema: Json,
    properties: Seq<(String, Json)>,
    upto: nat,
    depth: nat,
    deeper: nat,
)
    requires
        !properties_are_cut(schema, properties, upto, depth),
        deeper >= depth,
    ensures
        property_paths(x_prop, path, schema, properties, upto, depth) == property_paths(
            x_prop,
            path,
            schema,
            properties,
            upto,
            deeper,
        ),
        !properties_are_cut(schema, properties, upto, deeper),
    decreases depth, upto + 1,
{
    if !(upto == 0 || upto > properties.len()) {
        lemma_uncut_properties_are_whole(
            x_prop,
            path,
            schema,
            properties,
            (upto - 1) as nat,
            depth,
            deeper,
        );
        lemma_uncut_walk_is_whole(
            x_prop,
            path + "/"@ + properties[upto - 1].0@,
            schema,
            properties[upto - 1].1,
            depth,
            deeper,
        );
    }
}

/// The node that `node` stands for in `schema`.
fn resolve<'a>(schema: &'a Json, node: &'a Json) -> (r: &'a Json)
    ensures
        *r == resolved(*schema, *node),
{
    match node.get("$ref") {
        Some(reference) => match reference.as_str() {
            Some(target) => {
                let parts = split_text(target.as_str(), '/');
                let last = &parts[parts.len() - 1];
                assert(last@ == split_by(target@, '/').last());
                match schema.get("definitions") {
                    Some(definitions) => match definitions.get(last.as_str()) {
                        Some(definition) => definition,
                        None => node,
                    },
                    None => node,
                }
            },
            None => node,
        },
        None => node,
    }
}

/// The paths below `path` at which the schema node `node` has a string
/// marked with `x_prop`. A node that is a string and carries `x_prop` as
/// `true` gives `path`; an object gives the paths of its properties, each
/// below `path`, `/` and its name; an array gives those of its items below
/// `path` and `/*`. A `$ref` stands for the definition of the schema that it
/// names. Nodes more than `depth` deep are not looked at.
pub fn find_paths_with_x_prop(x_prop: &str, path: &str, schema: &Json, node: &Json, depth: usize)
    -> (r: Vec<String>)
    ensures
        views(r@) == schema_paths(x_prop@, path@, *schema, *node, depth as nat),
    decreases depth,
{
    let mut paths: Vec<String> = Vec::new();
    assert(views(paths@) =~= Seq::<Seq<char>>::empty());
    if depth == 0 {
        return paths;
    }
    let node = resolve(schema, node);
    match node.get("type") {
        Some(kind) => match kind.as_str() {
            Some(kind) => {
                if same_text(kind.as_str(), "string") {
                    match node.get(x_prop) {
                        Some(flag) => match flag.as_bool() {
                            Some(true) => {
                                let found = String::from_str(path);
                                proof {
                                    lemma_views_push(paths@, found);
                                    assert(Seq::<Seq<char>>::empty().push(path@) =~= seq![path@]);
                                }
                                paths.push(found);
                            },
                            _ => {},
                        },
                        None => {},
                    }
                } else if same_text(kind.as_str(), "object") {
                    match node.get("properties") {
                        Some(properties) => match properties.as_object() {
                            Some(members) => {
                                let mut i: usize = 0;
                                while i < members.len()
                                    invariant
                                        i <= members@.len(),
                                        depth > 0,
                                        views(paths@) == property_paths(
                                            x_prop@,
                                            path@,
                                            *schema,
                                            members@,
                                            i as nat,
                                            (depth - 1) as nat,
                                        ),
                                    decreases members@.len() - i,
                                {
                                    let below = String::from_str(path).concat("/").concat(
                                        members[i].0.as_str(),
                                    );
                                    let mut found = find_paths_with_x_prop(
                                        x_prop,
                                        below.as_str(),
                                        schema,
                                        &members[i].1,
                                        depth - 1,
                                    );
                                    proof {
                                        lemma_views_add(paths@, found@);
                                    }
                                    paths.append(&mut found);
                                    i += 1;
                                }
                            },
                            None => {},
                        },
                        None => {},
                    }
                } else if same_text(kind.as_str(), "array") {
                    match node.get("items") {
                        Some(items) => {
                            let below = String::from_str(path).concat("/*");
                            let mut found = find_paths_with_x_prop(
                                x_prop,
                                below.as_str(),
                                schema,
                                items,
                                depth - 1,
                            );
                            proof {
                                lemma_views_add(paths@, found@);
                                assert(Seq::<Seq<char>>::empty() + views(found@) =~= views(found@));
                            }
                            paths.append(&mut found);
                        },
                        None => {},
                    }
                }
            },
            None => {},
        },
        None => {},
    }
    paths
}

/// Whether the walk through the schema node `node` leaves something out
/// because it lies more than `depth` nodes deep. Where it does not,
/// `find_paths_with_x_prop` finds at this depth what it finds at any greater
/// one.
pub fn walk_reaches_depth(schema: &Json, node: &Json, depth: usize) -> (r: bool)
    ensures
        r == walk_is_cut(*schema, *node, depth as nat),
    decreases depth,
{
    if depth == 0 {
        return true;
    }
    let inner = resolve(schema, node);
    match inner.get("type") {
        Some(kind) => match kind.as_str() {
            Some(kind) => {
                if same_text(kind.as_str(), "string") {
                    false
                } else if same_text(kind.as_str(), "object") {
                    match inner.get("properties") {
                        Some(properties) => match properties.as_object() {
                            Some(members) => {
                                let mut i: usize = 0;
                                while i < members.len()
                                    invariant
                                        i <= members@.len(),
                                        depth > 0,
                                        walk_is_cut(*schema, *node, depth as nat)
                                            == properties_are_cut(
                                            *schema,
                                            members@,
                                            members@.len(),
                                            (depth - 1) as nat,
                                        ),
                                        !properties_are_cut(
                                            *schema,
                                            members@,
                                            i as nat,
                                            (depth - 1) as nat,
                                        ),
                                    decreases members@.len() - i,
                                {
                                    if walk_reaches_depth(schema, &members[i].1, depth - 1) {
                                        proof {
                                            assert(properties_are_cut(
                                                *schema,
                                                members@,
                                                (i + 1) as nat,
                                                (depth - 1) as nat,
                                            ));
                                            lemma_cut_property_cuts_the_rest(
                                                *schema,
                                                members@,
                                                (i + 1) as nat,
                                                members@.len(),
                                                (depth - 1) as nat,
                                            );
                                        }
                                        return true;
                                    }
                                    i += 1;
                                }
                                false
                            },
                            None => false,
                        },
                        None => false,
                    }
                } else if same_text(kind.as_str(), "array") {
                    match inner.get("items") {
                        Some(items) => walk_reaches_depth(schema, items, depth - 1),
                        None => false,
                    }
                } else {
                    false
                }
            },
            None => false,
        },
        None => false,
    }
}

/// Where the walk through the first properties leaves something out, the
/// walk through more of them does.
proof fn lemma_cut_property_cuts_the_rest(
    schema: Json,
    properties: Seq<(String, Json)>,
    some: nat,
    more: nat,
    depth: nat,
)
    requires
        properties_are_cut(schema, properties, some, depth),
        some <= more <= properties.len(),
    ensures
        properties_are_cut(schema, properties, more, depth),
    decreases more,
{
    if more > some {
        lemma_cut_property_cuts_the_rest(schema, properties, some, (more - 1) as nat, depth);
    }
}

} // verus!
