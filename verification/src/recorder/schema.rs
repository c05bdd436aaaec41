//! The schemas of message types: their names, and where they are kept.

use crate::assoc::{has_key, key_at, lemma_as_map};
use crate::command::names::{
    dds_type_parts, parse_dds_type_name, ros_type_name, slashed, slashed_text,
};
use crate::paths::{parse_path, parts_before, path_parts, PartView, PathKey};
use crate::sorted::{lemma_sorted_unique, shapes, SortKey, SortedTable};
use crate::text::{
    chars_of, contains_text, first_at, has_text, join2, join3, occurs_at, same_text, split_once,
    split_parts, starts_with, texts,
};
use vstd::prelude::*;
use vstd::string::*;

verus! {

/// How a schema is written.
#[derive(Clone, Copy, Debug, Eq, PartialEq)]
pub enum SchemaEncoding {
    Ros2Msg,
    Ros2Idl,
}

/// The name of an encoding.
pub open spec fn encoding_name(encoding: SchemaEncoding) -> Seq<char> {
    match encoding {
        SchemaEncoding::Ros2Msg => "ros2msg"@,
        SchemaEncoding::Ros2Idl => "ros2idl"@,
    }
}

/// The ending of files in an encoding.
pub open spec fn encoding_extension(encoding: SchemaEncoding) -> Seq<char> {
    match encoding {
        SchemaEncoding::Ros2Msg => "msg"@,
        SchemaEncoding::Ros2Idl => "idl"@,
    }
}

impl SchemaEncoding {
    /// The name of the encoding.
    pub fn as_str(self) -> (r: &'static str)
        ensures
            r@ == encoding_name(self),
    {
        match self {
            SchemaEncoding::Ros2Msg => "ros2msg",
            SchemaEncoding::Ros2Idl => "ros2idl",
        }
    }

    /// The ending of files in the encoding.
    pub fn extension(self) -> (r: &'static str)
        ensures
            r@ == encoding_extension(self),
    {
        match self {
            SchemaEncoding::Ros2Msg => "msg",
            SchemaEncoding::Ros2Idl => "idl",
        }
    }
}

/// Why a name is not that of a schema.
#[derive(Clone, Copy, Debug, Eq, PartialEq)]
pub enum SchemaNameError {
    /// The name has a slash, but no type behind its kind.
    MissingTypeName,
    /// The name has more than three parts.
    ExtraSegments,
    /// The kind is none of `msg`, `srv` and `action`.
    UnsupportedKind,
    /// The name is neither a ROS nor a DDS type name.
    UnsupportedFormat,
}

/// A type name in its parts.
pub struct ParsedTypeName<'a> {
    pub package: &'a str,
    pub kind: &'a str,
    pub base_name: &'a str,
}

/// The kinds of types.
pub open spec fn is_kind(kind: Seq<char>) -> bool {
    kind == "msg"@ || kind == "srv"@ || kind == "action"@
}

/// The package, the kind and the name in a type name, in ROS or DDS form.
pub open spec fn type_parts(name: Seq<char>) -> Result<
    (Seq<char>, Seq<char>, Seq<char>),
    SchemaNameError,
> {
    if contains_text(name, "/"@) {
        let (package, rest) = split_parts(name, "/"@)->0;
        match split_parts(rest, "/"@) {
            None => Err(SchemaNameError::MissingTypeName),
            Some((kind, base_name)) => if contains_text(base_name, "/"@) {
                Err(SchemaNameError::ExtraSegments)
            } else if !is_kind(kind) {
                Err(SchemaNameError::UnsupportedKind)
            } else {
                Ok((package, kind, base_name))
            },
        }
    } else {
        match dds_type_parts(name) {
            Some(parts) => Ok(parts),
            None => Err(SchemaNameError::UnsupportedFormat),
        }
    }
}

impl<'a> ParsedTypeName<'a> {
    /// Takes a type name apart.
    pub fn parse(name: &'a str) -> (r: Result<ParsedTypeName<'a>, SchemaNameError>)
        ensures
            match (r, type_parts(name@)) {
                (Ok(parsed), Ok(parts)) => parsed.package@ == parts.0 && parsed.kind@ == parts.1
                    && parsed.base_name@ == parts.2,
                (Err(error), Err(want)) => error == want,
                _ => false,
            },
    {
        match split_once(name, "/") {
            None => match parse_dds_type_name(name) {
                Some((package, kind, base_name)) => Ok(ParsedTypeName { package, kind, base_name }),
                None => Err(SchemaNameError::UnsupportedFormat),
            },
            Some((package, rest)) => match split_once(rest, "/") {
                None => Err(SchemaNameError::MissingTypeName),
                Some((kind, base_name)) => {
                    if has_text(base_name, "/") {
                        return Err(SchemaNameError::ExtraSegments);
                    }
                    if !(same_text(kind, "msg") || same_text(kind, "srv") || same_text(
                        kind,
                        "action",
                    )) {
                        return Err(SchemaNameError::UnsupportedKind);
                    }
                    Ok(ParsedTypeName { package, kind, base_name })
                },
            },
        }
    }

    /// The parts with slashes between them.
    pub fn relative_stem(&self) -> (r: String)
        ensures
            r@ == slashed(self.package@, self.kind@, self.base_name@),
    {
        slashed_text(self.package, self.kind, self.base_name)
    }

    /// The ROS form of the name.
    pub fn normalized_name(&self) -> (r: String)
        ensures
            r@ == slashed(self.package@, self.kind@, self.base_name@),
    {
        self.relative_stem()
    }
}

/// The name under which a schema is kept: the ROS form of a type name, or the name as
/// it is.
pub open spec fn schema_name(name: Seq<char>) -> Seq<char> {
    match type_parts(name) {
        Ok((package, kind, base_name)) => slashed(package, kind, base_name),
        Err(_) => name,
    }
}

/// Gives the name under which a schema is kept.
pub fn normalize_schema_name(name: &str) -> (r: String)
    ensures
        r@ == schema_name(name@),
{
    match ParsedTypeName::parse(name) {
        Ok(parsed) => parsed.normalized_name(),
        Err(_) => name.to_owned(),
    }
}

/// The paths stand in strictly rising order.
pub open spec fn rising_paths(list: Seq<Seq<char>>) -> bool {
    forall|i: int, j: int|
        0 <= i < j < list.len() ==> parts_before(
            path_parts(#[trigger] list[i]),
            path_parts(#[trigger] list[j]),
        )
}

/// No earlier path of the list is the same as the one at a place.
pub open spec fn first_of_path(list: Seq<Seq<char>>, at: int) -> bool {
    &&& 0 <= at < list.len()
    &&& forall|j: int| 0 <= j < at ==> path_parts(#[trigger] list[j]) != path_parts(list[at])
}

/// A path with the given parts is in the list.
pub open spec fn has_path(list: Seq<Seq<char>>, parts: Seq<PartView>) -> bool {
    exists|i: int| 0 <= i < list.len() && path_parts(#[trigger] list[i]) == parts
}

/// Orders the paths under which schemas are looked for. Of paths that are the same, the
/// first stays.
pub fn ordered_prefixes(prefixes: Vec<String>) -> (r: Vec<String>)
    ensures
        rising_paths(texts(r@)),
        forall|path: Seq<char>|
            texts(r@).contains(path) <==> exists|at: int|
                #[trigger] first_of_path(texts(prefixes@), at) && texts(prefixes@)[at] == path,
        forall|at: int|
            0 <= at < prefixes@.len() ==> has_path(
                texts(r@),
                path_parts(#[trigger] texts(prefixes@)[at]),
            ),
{
    let ghost list = texts(prefixes@);
    let mut table: SortedTable<PathKey, usize> = SortedTable::new();
    let mut i: usize = 0;
    while i < prefixes.len()
        invariant
            list == texts(prefixes@),
            i <= prefixes@.len(),
            table.wf(),
            forall|parts: Seq<PartView>| #[trigger]
                table@.contains_key(parts) ==> table@[parts] < i && first_of_path(
                    list,
                    table@[parts] as int,
                ) && path_parts(list[table@[parts] as int]) == parts,
            forall|j: int|
                0 <= j < i ==> table@.contains_key(path_parts(#[trigger] list[j])),
        decreases prefixes@.len() - i,
    {
        let key = PathKey { parts: parse_path(prefixes[i].as_str()) };
        assert(key.shape() == path_parts(list[i as int]));
        if !table.contains(&key) {
            assert(first_of_path(list, i as int)) by {
                assert forall|j: int| 0 <= j < i implies path_parts(#[trigger] list[j])
                    != path_parts(list[i as int]) by {
                    assert(table@.contains_key(path_parts(list[j])));
                }
            }
            table.put(key, i);
        }
        i += 1;
    }
    let ghost map = table@;
    let entries = table.into_entries();
    let ghost pairs = shapes::<PathKey, usize>(entries@);
    proof {
        lemma_sorted_unique::<PathKey, usize>(pairs);
        lemma_as_map(pairs);
        assert forall|j: int| 0 <= j < pairs.len() implies map.contains_key(
            (#[trigger] pairs[j]).0,
        ) && map[pairs[j].0] == pairs[j].1 by {
            assert(key_at(pairs, j, pairs[j].0));
            assert(has_key(pairs, pairs[j].0));
        }
    }
    let mut r: Vec<String> = Vec::new();
    let mut k: usize = 0;
    while k < entries.len()
        invariant
            list == texts(prefixes@),
            pairs == shapes::<PathKey, usize>(entries@),
            forall|j: int|
                0 <= j < pairs.len() ==> (#[trigger] pairs[j]).1 < list.len(),
            k <= entries@.len(),
            r@.len() == k,
            forall|j: int| 0 <= j < k ==> (#[trigger] r@[j])@ == list[pairs[j].1 as int],
        decreases entries@.len() - k,
    {
        let at: usize = entries[k].1;
        assert(pairs[k as int].1 == at);
        r.push(prefixes[at].clone());
        k += 1;
    }
    proof {
        let found = texts(r@);
        assert forall|j: int| 0 <= j < found.len() implies path_parts(#[trigger] found[j])
            == pairs[j].0 && found[j] == list[pairs[j].1 as int] && first_of_path(
            list,
            pairs[j].1 as int,
        ) by {
            assert(map.contains_key(pairs[j].0));
        }
        assert forall|at: int| 0 <= at < list.len() implies has_path(
            found,
            path_parts(#[trigger] list[at]),
        ) by {
            let parts = path_parts(list[at]);
            assert(map.contains_key(parts));
            assert(has_key(pairs, parts));
            let j = choose|j: int| key_at(pairs, j, parts);
            assert(path_parts(found[j]) == parts);
        }
        assert forall|path: Seq<char>| found.contains(path) <==> exists|at: int|
            #[trigger] first_of_path(list, at) && list[at] == path by {
            if found.contains(path) {
                let j = choose|j: int| 0 <= j < found.len() && found[j] == path;
                assert(first_of_path(list, pairs[j].1 as int) && list[pairs[j].1 as int] == path);
            }
            if exists|at: int| #[trigger] first_of_path(list, at) && list[at] == path {
                let at = choose|at: int| #[trigger] first_of_path(list, at) && list[at] == path;
                let parts = path_parts(list[at]);
                assert(map.contains_key(parts));
                assert(map[parts] == at) by {
                    let other = map[parts] as int;
                    assert(first_of_path(list, other));
                    if other < at {
                        assert(path_parts(list[other]) != path_parts(list[at]));
                    } else if at < other {
                        assert(path_parts(list[at]) != path_parts(list[other]));
                    }
                }
                assert(has_key(pairs, parts));
                let j = choose|j: int| key_at(pairs, j, parts);
                assert(found[j] == path);
            }
        }
    }
    r
}

/// A path with one more component, which does not start with a slash.
pub open spec fn path_join(path: Seq<char>, component: Seq<char>) -> Seq<char> {
    if path.len() == 0 || path.last() == '/' {
        path + component
    } else {
        path + "/"@ + component
    }
}

/// Adds a component to a path.
fn join_path(path: &str, component: &str) -> (r: String)
    ensures
        r@ == path_join(path@, component@),
{
    let chars = chars_of(path);
    if chars.len() == 0 || chars[chars.len() - 1] == '/' {
        join2(path, component)
    } else {
        join3(path, "/", component)
    }
}

/// Where the schema of a type is kept below a prefix.
pub open spec fn candidate_path(
    prefix: Seq<char>,
    package: Seq<char>,
    kind: Seq<char>,
    base_name: Seq<char>,
    encoding: SchemaEncoding,
) -> Seq<char> {
    path_join(
        path_join(path_join(path_join(prefix, "share"@), package), kind),
        base_name + "."@ + encoding_extension(encoding),
    )
}

/// Tells where the schema of a type is kept below a prefix.
pub fn schema_candidate_path(
    prefix: &str,
    parsed: &ParsedTypeName<'_>,
    encoding: SchemaEncoding,
) -> (r: String)
    ensures
        r@ == candidate_path(
            prefix@,
            parsed.package@,
            parsed.kind@,
            parsed.base_name@,
            encoding,
        ),
{
    let share = join_path(prefix, "share");
    let package = join_path(share.as_str(), parsed.package);
    let kind = join_path(package.as_str(), parsed.kind);
    let file = join3(parsed.base_name, ".", encoding.extension());
    join_path(kind.as_str(), file.as_str())
}

/// A file that may hold a schema.
pub struct SchemaCandidate {
    pub path: String,
    pub encoding: SchemaEncoding,
}

/// The paths and encodings of candidates.
pub open spec fn candidate_views(list: Seq<SchemaCandidate>) -> Seq<(Seq<char>, SchemaEncoding)> {
    list.map_values(|candidate: SchemaCandidate| (candidate.path@, candidate.encoding))
}

/// The files that may hold the schema of a type, in the order in which they count:
/// prefix by prefix, messages before interface definitions.
pub open spec fn candidates(
    prefixes: Seq<Seq<char>>,
    parts: (Seq<char>, Seq<char>, Seq<char>),
) -> Seq<(Seq<char>, SchemaEncoding)>
    decreases prefixes.len(),
{
    if prefixes.len() == 0 {
        seq![]
    } else {
        let prefix = prefixes.last();
        let msg = SchemaEncoding::Ros2Msg;
        let idl = SchemaEncoding::Ros2Idl;
        candidates(prefixes.drop_last(), parts).push(
            (candidate_path(prefix, parts.0, parts.1, parts.2, msg), msg),
        ).push((candidate_path(prefix, parts.0, parts.1, parts.2, idl), idl))
    }
}

/// Lists the files that may hold the schema of a type. The first that exists counts.
pub fn schema_candidates(name: &str, prefixes: &Vec<String>) -> (r: Result<
    Vec<SchemaCandidate>,
    SchemaNameError,
>)
    ensures
        match (r, type_parts(name@)) {
            (Ok(list), Ok(parts)) => candidate_views(list@) == candidates(
                texts(prefixes@),
                parts,
            ),
            (Err(error), Err(want)) => error == want,
            _ => false,
        },
{
    let parsed = match ParsedTypeName::parse(name) {
        Err(error) => return Err(error),
        Ok(parsed) => parsed,
    };
    let ghost views = texts(prefixes@);
    let ghost parts = (parsed.package@, parsed.kind@, parsed.base_name@);
    let mut r: Vec<SchemaCandidate> = Vec::new();
    let mut i: usize = 0;
    assert(candidate_views(r@) =~= seq![]);
    while i < prefixes.len()
        invariant
            views == texts(prefixes@),
            parts == (parsed.package@, parsed.kind@, parsed.base_name@),
            i <= prefixes.len(),
            candidate_views(r@) == candidates(views.take(i as int), parts),
        decreases prefixes.len() - i,
    {
        assert(views.take(i + 1).drop_last() =~= views.take(i as int));
        let ghost before = candidate_views(r@);
        let msg = schema_candidate_path(prefixes[i].as_str(), &parsed, SchemaEncoding::Ros2Msg);
        let idl = schema_candidate_path(prefixes[i].as_str(), &parsed, SchemaEncoding::Ros2Idl);
        r.push(SchemaCandidate { path: msg, encoding: SchemaEncoding::Ros2Msg });
        r.push(SchemaCandidate { path: idl, encoding: SchemaEncoding::Ros2Idl });
        assert(candidate_views(r@) =~= before.push((msg@, SchemaEncoding::Ros2Msg)).push(
            (idl@, SchemaEncoding::Ros2Idl),
        ));
        i += 1;
    }
    assert(views.take(i as int) =~= views);
    Ok(r)
}

/// The message of an error.
pub open spec fn schema_error_text(name: Seq<char>, error: SchemaNameError) -> Seq<char> {
    match error {
        SchemaNameError::MissingTypeName => "missing type name in schema name"@,
        SchemaNameError::ExtraSegments => "unexpected extra path segments in schema name "@ + name,
        SchemaNameError::UnsupportedKind => "unsupported schema kind "@ + name_kind(name) + " in "@
            + name,
        SchemaNameError::UnsupportedFormat => "unsupported schema name format "@ + name,
    }
}

/// What stands between the first and the second slash of a name, or nothing.
pub open spec fn name_kind(name: Seq<char>) -> Seq<char> {
    match split_parts(name, "/"@) {
        None => ""@,
        Some((_, rest)) => match split_parts(rest, "/"@) {
            None => ""@,
            Some((kind, _)) => kind,
        },
    }
}

/// Gives the message of an error.
pub fn schema_error(name: &str, error: SchemaNameError) -> (r: String)
    ensures
        r@ == schema_error_text(name@, error),
{
    match error {
        SchemaNameError::MissingTypeName => "missing type name in schema name".to_owned(),
        SchemaNameError::ExtraSegments => join2(
            "unexpected extra path segments in schema name ",
            name,
        ),
        SchemaNameError::UnsupportedKind => {
            let kind = match split_once(name, "/") {
                None => "",
                Some((_, rest)) => match split_once(rest, "/") {
                    None => "",
                    Some((kind, _)) => kind,
                },
            };
            let mut r = join3("unsupported schema kind ", kind, " in ");
            r.append(name);
            r
        },
        SchemaNameError::UnsupportedFormat => join2("unsupported schema name format ", name),
    }
}

/// Where a schema was found, and its name.
pub struct ResolvedSchema {
    pub name: String,
    pub path: String,
    pub encoding: SchemaEncoding,
}

/// The message for a schema that was not found.
pub open spec fn unresolved_text(
    name: Seq<char>,
    parts: (Seq<char>, Seq<char>, Seq<char>),
) -> Seq<char> {
    "unable to resolve schema "@ + name + " from AMENT_PREFIX_PATH; looked for "@ + parts.0 + "/"@
        + slashed(parts.0, parts.1, parts.2) + ".[msg|idl] under each prefix"@
}

/// `at` is the first place that holds.
pub open spec fn first_true(flags: Seq<bool>, at: int) -> bool {
    &&& 0 <= at < flags.len()
    &&& flags[at]
    &&& forall|i: int| 0 <= i < at ==> !#[trigger] flags[i]
}

/// Chooses the schema of a type. `is_file` tells of each candidate whether there is such
/// a file; the first that there is counts.
pub fn resolve_schema(name: &str, prefixes: &Vec<String>, is_file: &Vec<bool>) -> (r: Result<
    ResolvedSchema,
    String,
>)
    requires
        match type_parts(name@) {
            Ok(parts) => is_file@.len() == candidates(
                texts(prefixes@),
                parts,
            ).len(),
            Err(_) => true,
        },
    ensures
        match type_parts(name@) {
            Err(error) => (r matches Err(text) && text@ == schema_error_text(name@, error)),
            Ok(parts) => match r {
                Err(text) => text@ == unresolved_text(name@, parts) && forall|i: int|
                    0 <= i < is_file@.len() ==> !#[trigger] is_file@[i],
                Ok(schema) => schema.name@ == slashed(parts.0, parts.1, parts.2) && exists|i: int|
                    #[trigger] first_true(is_file@, i) && (schema.path@, schema.encoding)
                        == candidates(texts(prefixes@), parts)[i],
            },
        },
{
    let parsed = match ParsedTypeName::parse(name) {
        Err(error) => return Err(schema_error(name, error)),
        Ok(parsed) => parsed,
    };
    let ghost views = texts(prefixes@);
    let ghost parts = (parsed.package@, parsed.kind@, parsed.base_name@);
    proof {
        lemma_candidates_len(views, parts);
    }
    let count: usize = is_file.len();
    let mut i: usize = 0;
    while i < prefixes.len()
        invariant
            count == is_file@.len(),
            views == texts(prefixes@),
            parts == (parsed.package@, parsed.kind@, parsed.base_name@),
            type_parts(name@) == Ok::<_, SchemaNameError>(parts),
            is_file@.len() == 2 * prefixes@.len(),
            i <= prefixes.len(),
            forall|j: int| 0 <= j < 2 * i ==> !#[trigger] is_file@[j],
        decreases prefixes.len() - i,
    {
        proof {
            lemma_candidates(views, parts, i as int);
        }
        assert(2 * i + 1 < count);
        let msg: usize = i + i;
        if is_file[msg] {
            assert(first_true(is_file@, msg as int));
            return Ok(
                ResolvedSchema {
                    name: parsed.normalized_name(),
                    path: schema_candidate_path(
                        prefixes[i].as_str(),
                        &parsed,
                        SchemaEncoding::Ros2Msg,
                    ),
                    encoding: SchemaEncoding::Ros2Msg,
                },
            );
        }
        let idl: usize = msg + 1;
        if is_file[idl] {
            assert(first_true(is_file@, idl as int));
            return Ok(
                ResolvedSchema {
                    name: parsed.normalized_name(),
                    path: schema_candidate_path(
                        prefixes[i].as_str(),
                        &parsed,
                        SchemaEncoding::Ros2Idl,
                    ),
                    encoding: SchemaEncoding::Ros2Idl,
                },
            );
        }
        i += 1;
    }
    let mut text = join3(
        "unable to resolve schema ",
        name,
        " from AMENT_PREFIX_PATH; looked for ",
    );
    text.append(parsed.package);
    text.append("/");
    text.append(parsed.relative_stem().as_str());
    text.append(".[msg|idl] under each prefix");
    Err(text)
}

/// Two candidates for each prefix.
pub proof fn lemma_candidates_len(
    prefixes: Seq<Seq<char>>,
    parts: (Seq<char>, Seq<char>, Seq<char>),
)
    ensures
        candidates(prefixes, parts).len() == 2 * prefixes.len(),
    decreases prefixes.len(),
{
    if prefixes.len() > 0 {
        lemma_candidates_len(prefixes.drop_last(), parts);
    }
}

/// Two candidates for each prefix, in the order of prefixes.
pub proof fn lemma_candidates(
    prefixes: Seq<Seq<char>>,
    parts: (Seq<char>, Seq<char>, Seq<char>),
    i: int,
)
    requires
        0 <= i < prefixes.len(),
    ensures
        candidates(prefixes, parts)[2 * i] == (
            candidate_path(prefixes[i], parts.0, parts.1, parts.2, SchemaEncoding::Ros2Msg),
            SchemaEncoding::Ros2Msg,
        ),
        candidates(prefixes, parts)[2 * i + 1] == (
            candidate_path(prefixes[i], parts.0, parts.1, parts.2, SchemaEncoding::Ros2Idl),
            SchemaEncoding::Ros2Idl,
        ),
    decreases prefixes.len(),
{
    lemma_candidates_len(prefixes.drop_last(), parts);
    if prefixes.len() > 1 {
        let at = if i < prefixes.len() - 1 {
            i
        } else {
            0
        };
        lemma_candidates(prefixes.drop_last(), parts, at);
    } else {
        assert(candidates(prefixes.drop_last(), parts) =~= seq![]);
    }
}

// Laws.

/// A text holds a slash as a part just where it holds the character.
pub proof fn lemma_slash(text: Seq<char>)
    ensures
        contains_text(text, "/"@) == text.contains('/'),
{
    reveal_strlit("/");
    if contains_text(text, "/"@) {
        let at = choose|at: int| occurs_at(text, "/"@, at);
        assert(text.subrange(at, at + 1)[0] == text[at]);
    }
    if text.contains('/') {
        let at = choose|at: int| 0 <= at < text.len() && text[at] == '/';
        assert(text.subrange(at, at + 1) =~= "/"@);
        assert(occurs_at(text, "/"@, at));
    }
}

/// A part that stands somewhere stands somewhere first.
proof fn lemma_least(text: Seq<char>, part: Seq<char>, at: int)
    requires
        occurs_at(text, part, at),
    ensures
        exists|i: int| first_at(text, part, i),
    decreases at,
{
    if exists|i: int| occurs_at(text, part, i) && i < at {
        let i = choose|i: int| occurs_at(text, part, i) && i < at;
        lemma_least(text, part, i);
    } else {
        assert(first_at(text, part, at));
    }
}

/// What splitting at a slash gives: the first part has no slash, and joining both gives
/// the text back.
pub proof fn lemma_split_slash(text: Seq<char>)
    requires
        text.contains('/'),
    ensures
        match split_parts(text, "/"@) {
            Some((first, rest)) => !first.contains('/') && text == first + "/"@ + rest,
            None => false,
        },
{
    reveal_strlit("/");
    lemma_slash(text);
    let some = choose|at: int| occurs_at(text, "/"@, at);
    lemma_least(text, "/"@, some);
    let at = choose|at: int| first_at(text, "/"@, at);
    let first = text.take(at);
    if first.contains('/') {
        let i = choose|i: int| 0 <= i < first.len() && first[i] == '/';
        assert(text.subrange(i, i + 1) =~= "/"@);
        assert(occurs_at(text, "/"@, i));
    }
    assert(text.subrange(at, at + 1)[0] == text[at]);
    assert(text =~= first + "/"@ + text.skip(at + 1));
}

/// A text that was put together around its first slash is split there.
pub proof fn lemma_join_slash(first: Seq<char>, rest: Seq<char>)
    requires
        !first.contains('/'),
    ensures
        split_parts(first + "/"@ + rest, "/"@) == Some((first, rest)),
        (first + "/"@ + rest).contains('/'),
{
    reveal_strlit("/");
    let text = first + "/"@ + rest;
    assert(text[first.len() as int] == '/');
    lemma_slash(text);
    lemma_split_slash(text);
    let (a, b) = split_parts(text, "/"@)->0;
    if a.len() < first.len() {
        let joined = a + "/"@ + b;
        assert(joined[a.len() as int] == '/');
        assert(first[a.len() as int] == text[a.len() as int]);
        assert(first.contains('/'));
    } else if a.len() > first.len() {
        let joined = a + "/"@ + b;
        assert(a[first.len() as int] == joined[first.len() as int]);
        assert(a.contains('/'));
    }
    assert(a.len() == first.len());
    assert forall|i: int| 0 <= i < a.len() implies a[i] == first[i] by {
        assert(a[i] == text[i]);
    }
    assert(a =~= first);
    assert(b.len() == rest.len());
    assert forall|i: int| 0 <= i < b.len() implies b[i] == rest[i] by {
        assert(b[i] == text[a.len() + 1 + i]);
    }
    assert(b =~= rest);
}

/// The parts of a type name have no slashes.
proof fn lemma_parts_without_slash(name: Seq<char>)
    ensures
        match type_parts(name) {
            Ok((package, kind, base_name)) => !package.contains('/') && !kind.contains('/')
                && !base_name.contains('/') && is_kind(kind),
            Err(_) => true,
        },
{
    lemma_slash(name);
    reveal_strlit("msg");
    reveal_strlit("srv");
    reveal_strlit("action");
    if name.contains('/') {
        lemma_split_slash(name);
        let (_, rest) = split_parts(name, "/"@)->0;
        lemma_slash(rest);
        if rest.contains('/') {
            lemma_split_slash(rest);
            let (_, base_name) = split_parts(rest, "/"@)->0;
            lemma_slash(base_name);
        }
    } else {
        match dds_type_parts(name) {
            None => {},
            Some((package, kind, base_name)) => {
                lemma_dds_inside(name);
            },
        }
    }
}

/// The parts of a DDS type name are made of its characters.
proof fn lemma_dds_inside(name: Seq<char>)
    requires
        dds_type_parts(name) is Some,
        !name.contains('/'),
    ensures
        match dds_type_parts(name) {
            Some((package, _, base_name)) => !package.contains('/') && !base_name.contains('/'),
            None => true,
        },
{
    let some = choose|at: int| occurs_at(name, "::"@, at);
    lemma_least(name, "::"@, some);
    let at = choose|at: int| first_at(name, "::"@, at);
    let (package, kind, base_name) = dds_type_parts(name)->0;
    if package.contains('/') {
        let i = choose|i: int| 0 <= i < package.len() && package[i] == '/';
        assert(name[i] == '/');
    }
    if base_name.contains('/') {
        let i = choose|i: int| 0 <= i < base_name.len() && base_name[i] == '/';
        let skipped = name.len() - name.skip(at + "::"@.len()).len();
        let remainder = name.skip(at + "::"@.len());
        let used = if starts_with(remainder, "msg::dds_::"@) {
            "msg::dds_::"@.len() as int
        } else if starts_with(remainder, "srv::dds_::"@) {
            "srv::dds_::"@.len() as int
        } else {
            "action::dds_::"@.len() as int
        };
        assert(base_name[i] == remainder[used + i]);
        assert(remainder[used + i] == name[skipped + used + i]);
    }
}

/// The name under which a schema is kept has the parts of the name it was made from.
pub proof fn law_schema_name_keeps_parts(name: Seq<char>)
    ensures
        type_parts(name) is Ok ==> type_parts(schema_name(name)) == type_parts(name),
{
    match type_parts(name) {
        Err(_) => {},
        Ok((package, kind, base_name)) => {
            lemma_parts_without_slash(name);
            let rest = kind + "/"@ + base_name;
            lemma_join_slash(kind, base_name);
            lemma_join_slash(package, rest);
            assert(schema_name(name) =~= package + "/"@ + rest);
            lemma_slash(schema_name(name));
            lemma_slash(rest);
            lemma_slash(base_name);
        },
    }
}

/// Recordings and the picture of the graph give a type the same name.
pub proof fn law_schema_named_like_type(name: Seq<char>)
    ensures
        schema_name(name) == ros_type_name(name),
{
    if contains_text(name, "/"@) {
        lemma_slash(name);
        lemma_split_slash(name);
        let (package, rest) = split_parts(name, "/"@)->0;
        if contains_text(rest, "/"@) {
            lemma_slash(rest);
            lemma_split_slash(rest);
            let (kind, base_name) = split_parts(rest, "/"@)->0;
            assert(name =~= slashed(package, kind, base_name));
        }
    }
}

/// The name under which a schema is kept is kept under itself.
pub proof fn law_schema_name_settles(name: Seq<char>)
    ensures
        schema_name(schema_name(name)) == schema_name(name),
{
    law_schema_name_keeps_parts(name);
}

} // verus!
