//! What names of schemas stand for, and where schemas are looked for.

use crate::recorder::schema::{
    candidate_path, candidates, encoding_extension, encoding_name, first_true, lemma_candidates,
    lemma_candidates_len, lemma_join_slash, lemma_slash, lemma_split_slash, schema_error_text,
    schema_name, type_parts, unresolved_text, SchemaEncoding, SchemaNameError,
};
use crate::text::split_parts;
use vstd::prelude::*;
use vstd::string::*;

verus! {

/// A name with slashes has three parts: a package, a kind that is one of three, and a name.
/// The parts are read back from it, and it is kept as it is.
pub proof fn law_type_reads_back(package: Seq<char>, kind: Seq<char>, name: Seq<char>)
    requires
        !package.contains('/'),
        !kind.contains('/'),
        !name.contains('/'),
    ensures
        ({
            let whole = package + "/"@ + kind + "/"@ + name;
            let known = kind == "msg"@ || kind == "srv"@ || kind == "action"@;
            &&& schema_name(whole) == whole
            &&& known ==> type_parts(whole) == Ok::<
                (Seq<char>, Seq<char>, Seq<char>),
                SchemaNameError,
            >((package, kind, name))
            &&& !known ==> type_parts(whole) == Err::<
                (Seq<char>, Seq<char>, Seq<char>),
                SchemaNameError,
            >(SchemaNameError::UnsupportedKind)
            &&& !known ==> schema_error_text(whole, SchemaNameError::UnsupportedKind)
                == "unsupported schema kind "@ + kind + " in "@ + whole
        }),
{
    let rest = kind + "/"@ + name;
    let whole = package + "/"@ + kind + "/"@ + name;
    lemma_join_slash(kind, name);
    lemma_join_slash(package, rest);
    assert(whole =~= package + "/"@ + rest);
    lemma_slash(whole);
    lemma_slash(rest);
    lemma_slash(name);
}

/// Names with fewer or more parts are refused.
pub proof fn law_other_names_refused(first: Seq<char>, second: Seq<char>, third: Seq<char>, rest: Seq<char>)
    requires
        !first.contains('/'),
        !second.contains('/'),
        !third.contains('/'),
    ensures
        type_parts(first + "/"@ + second) == Err::<
            (Seq<char>, Seq<char>, Seq<char>),
            SchemaNameError,
        >(SchemaNameError::MissingTypeName),
        type_parts(first + "/"@ + (second + "/"@ + (third + "/"@ + rest))) == Err::<
            (Seq<char>, Seq<char>, Seq<char>),
            SchemaNameError,
        >(SchemaNameError::ExtraSegments),
        schema_error_text(first, SchemaNameError::MissingTypeName)
            == "missing type name in schema name"@,
        schema_error_text(first, SchemaNameError::ExtraSegments)
            == "unexpected extra path segments in schema name "@ + first,
        schema_error_text(first, SchemaNameError::UnsupportedFormat)
            == "unsupported schema name format "@ + first,
{
    let short = first + "/"@ + second;
    lemma_join_slash(first, second);
    lemma_slash(short);
    lemma_slash(second);
    if split_parts(second, "/"@) is Some {
        assert(crate::text::contains_text(second, "/"@));
    }
    let tail = third + "/"@ + rest;
    let middle = second + "/"@ + tail;
    let long = first + "/"@ + middle;
    lemma_join_slash(third, rest);
    lemma_join_slash(second, tail);
    lemma_join_slash(first, middle);
    lemma_slash(long);
    lemma_slash(middle);
    lemma_slash(tail);
}

/// The ending of a file that holds a schema.
pub open spec fn ending(encoding: SchemaEncoding) -> Seq<char> {
    match encoding {
        SchemaEncoding::Ros2Msg => ".msg"@,
        SchemaEncoding::Ros2Idl => ".idl"@,
    }
}

/// A schema is kept below the prefix in `share`, the package, the kind, and a file of its
/// name with the ending of its encoding.
pub proof fn law_schema_file(
    prefix: Seq<char>,
    package: Seq<char>,
    kind: Seq<char>,
    name: Seq<char>,
    encoding: SchemaEncoding,
)
    requires
        package.len() > 0,
        package.last() != '/',
        kind.len() > 0,
        kind.last() != '/',
        prefix.len() > 0,
    ensures
        prefix.last() != '/' ==> candidate_path(prefix, package, kind, name, encoding) == prefix
            + "/share/"@ + package + "/"@ + kind + "/"@ + name + ending(encoding),
        prefix.last() == '/' ==> candidate_path(prefix, package, kind, name, encoding) == prefix
            + "share/"@ + package + "/"@ + kind + "/"@ + name + ending(encoding),
        encoding is Ros2Msg ==> encoding_name(encoding) == "ros2msg"@,
        encoding is Ros2Idl ==> encoding_name(encoding) == "ros2idl"@,
{
    reveal_strlit("share");
    reveal_strlit("/share/");
    reveal_strlit("share/");
    reveal_strlit("/");
    reveal_strlit(".");
    reveal_strlit("msg");
    reveal_strlit("idl");
    reveal_strlit(".msg");
    reveal_strlit(".idl");
    assert("."@ + encoding_extension(encoding) =~= ending(encoding));
    let share = if prefix.last() == '/' {
        prefix + "share"@
    } else {
        prefix + "/"@ + "share"@
    };
    assert(share.last() == 'e');
    let below = share + "/"@ + package;
    assert(below.last() == package.last());
    let kinds = below + "/"@ + kind;
    assert(kinds.last() == kind.last());
    let path = kinds + "/"@ + (name + "."@ + encoding_extension(encoding));
    assert(candidate_path(prefix, package, kind, name, encoding) == path);
    if prefix.last() != '/' {
        assert(path =~= prefix + "/share/"@ + package + "/"@ + kind + "/"@ + name + ending(
            encoding,
        ));
    } else {
        assert(path =~= prefix + "share/"@ + package + "/"@ + kind + "/"@ + name + ending(
            encoding,
        ));
    }
}

/// Schemas are looked for prefix by prefix, under each as a message first and as an interface
/// definition behind.
pub proof fn law_candidates_in_order(
    prefixes: Seq<Seq<char>>,
    package: Seq<char>,
    kind: Seq<char>,
    name: Seq<char>,
    i: int,
)
    requires
        0 <= i < prefixes.len(),
    ensures
        ({
            let list = candidates(prefixes, (package, kind, name));
            &&& list.len() == 2 * prefixes.len()
            &&& list[2 * i] == (
                candidate_path(prefixes[i], package, kind, name, SchemaEncoding::Ros2Msg),
                SchemaEncoding::Ros2Msg,
            )
            &&& list[2 * i + 1] == (
                candidate_path(prefixes[i], package, kind, name, SchemaEncoding::Ros2Idl),
                SchemaEncoding::Ros2Idl,
            )
        }),
{
    lemma_candidates_len(prefixes, (package, kind, name));
    lemma_candidates(prefixes, (package, kind, name), i);
}

/// Of the files that may hold a schema, the first that there is counts, and there is no other
/// first.
pub proof fn law_first_file_counts(flags: Seq<bool>, i: int, j: int)
    ensures
        first_true(flags, i) ==> 0 <= i < flags.len() && flags[i],
        first_true(flags, i) && 0 <= j < i ==> !flags[j],
        first_true(flags, i) && first_true(flags, j) ==> i == j,
        0 <= i < flags.len() && flags[i] && (forall|k: int| 0 <= k < i ==> !#[trigger] flags[k])
            ==> first_true(flags, i),
{
}

/// A schema that is found nowhere is said to be so, with what was looked for.
pub proof fn law_missing_schema_told(
    whole: Seq<char>,
    package: Seq<char>,
    kind: Seq<char>,
    name: Seq<char>,
)
    ensures
        unresolved_text(whole, (package, kind, name)) == "unable to resolve schema "@ + whole
            + " from AMENT_PREFIX_PATH; looked for "@ + package + "/"@ + (package + "/"@ + kind
            + "/"@ + name) + ".[msg|idl] under each prefix"@,
{
}

/// A name that is split at its first slash gives its two sides.
pub proof fn law_first_slash_splits(text: Seq<char>)
    requires
        text.contains('/'),
    ensures
        split_parts(text, "/"@) matches Some((first, rest)) && !first.contains('/') && text
            == first + "/"@ + rest,
{
    lemma_split_slash(text);
}

} // verus!
