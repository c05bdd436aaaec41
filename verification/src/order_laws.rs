//! What the orders of texts, paths and lists promise.

use crate::by_name::{occurrences, sorts_texts};
use crate::paths::{
    parts_before, parts_from, path_parts, segment_end, segment_parts, PartView,
};
use crate::sorted::{bytes_before, text_before};
use vstd::prelude::*;
use vstd::string::*;
use vstd::utf8::encode_utf8;

verus! {

/// Of two texts the one is first whose byte is less where they first differ, and of a text
/// and what it begins, the text.
pub proof fn law_bytes_decide_where_they_differ(
    common: Seq<u8>,
    low: u8,
    high: u8,
    first: Seq<u8>,
    second: Seq<u8>,
)
    requires
        low < high,
    ensures
        bytes_before(common + seq![low] + first, common + seq![high] + second),
        !bytes_before(common + seq![high] + second, common + seq![low] + first),
        bytes_before(common, common + seq![low] + first),
        !bytes_before(common + seq![low] + first, common),
        !bytes_before(common, common),
    decreases common.len(),
{
    let a = common + seq![low] + first;
    let b = common + seq![high] + second;
    if common.len() == 0 {
        assert(a[0] == low);
        assert(b[0] == high);
    } else {
        law_bytes_decide_where_they_differ(common.skip(1), low, high, first, second);
        assert(a[0] == common[0]);
        assert(b[0] == common[0]);
        assert(a.skip(1) =~= common.skip(1) + seq![low] + first);
        assert(b.skip(1) =~= common.skip(1) + seq![high] + second);
    }
}

/// Texts are ordered by their bytes in UTF-8.
pub proof fn law_texts_ordered_by_bytes(a: Seq<char>, b: Seq<char>)
    ensures
        text_before(a, b) <==> bytes_before(encode_utf8(a), encode_utf8(b)),
{
}

/// Paths are ordered by their parts: where they first differ, the root comes first, the
/// directory itself next, the one above next, and names last, which are ordered as texts. A
/// path comes before those below it.
pub proof fn law_paths_decide_where_they_differ(
    common: Seq<PartView>,
    one: PartView,
    other: PartView,
    first: Seq<PartView>,
    second: Seq<PartView>,
)
    requires
        one != other,
    ensures
        parts_before(common + seq![one] + first, common + seq![other] + second) <==> match (
            one,
            other,
        ) {
            (PartView::Name(a), PartView::Name(b)) => text_before(a, b),
            (PartView::Root, _) => true,
            (_, PartView::Root) => false,
            (PartView::Here, _) => true,
            (_, PartView::Here) => false,
            (PartView::Up, _) => true,
            (_, PartView::Up) => false,
        },
        parts_before(common, common + seq![one] + first),
        !parts_before(common + seq![one] + first, common),
        !parts_before(common, common),
    decreases common.len(),
{
    let a = common + seq![one] + first;
    let b = common + seq![other] + second;
    if common.len() == 0 {
        assert(a[0] == one);
        assert(b[0] == other);
    } else {
        law_paths_decide_where_they_differ(common.skip(1), one, other, first, second);
        assert(a[0] == common[0]);
        assert(b[0] == common[0]);
        assert(a.skip(1) =~= common.skip(1) + seq![one] + first);
        assert(b.skip(1) =~= common.skip(1) + seq![other] + second);
    }
}

proof fn lemma_segment(path: Seq<char>, at: int, end: int)
    requires
        0 <= at <= end <= path.len(),
        forall|i: int| at <= i < end ==> #[trigger] path[i] != '/',
        end == path.len() || path[end] == '/',
    ensures
        segment_end(path, at) == end,
    decreases end - at,
{
    if at < end {
        lemma_segment(path, at + 1, end);
    }
}

/// A segment of a path is a name, unless it is empty, one dot or two.
pub proof fn law_segments(segment: Seq<char>, is_first: bool)
    ensures
        segment.len() == 0 ==> segment_parts(segment, is_first).len() == 0,
        segment == seq!['.'] && is_first ==> segment_parts(segment, is_first) == seq![
            PartView::Here,
        ],
        segment == seq!['.'] && !is_first ==> segment_parts(segment, is_first).len() == 0,
        segment == seq!['.', '.'] ==> segment_parts(segment, is_first) == seq![PartView::Up],
        segment.len() > 0 && segment != seq!['.'] && segment != seq!['.', '.'] ==> segment_parts(
            segment,
            is_first,
        ) == seq![PartView::Name(segment)],
{
    reveal_strlit(".");
    reveal_strlit("..");
    assert("."@ =~= seq!['.']);
    assert(".."@ =~= seq!['.', '.']);
}

/// A path of one segment is what the segment is. What stands behind a slash is taken apart by
/// itself, and a slash in front is the root.
pub proof fn law_path_taken_apart(path: Seq<char>, at: int, end: int)
    requires
        0 <= at <= end <= path.len(),
        forall|i: int| at <= i < end ==> #[trigger] path[i] != '/',
        end == path.len() || path[end] == '/',
    ensures
        end == path.len() ==> parts_from(path, at) == segment_parts(
            path.subrange(at, end),
            at == 0,
        ),
        end < path.len() ==> parts_from(path, at) == segment_parts(
            path.subrange(at, end),
            at == 0,
        ) + parts_from(path, end + 1),
        path.len() > 0 && path[0] == '/' ==> path_parts(path) == seq![PartView::Root] + parts_from(
            path,
            1,
        ),
        path.len() == 0 || path[0] != '/' ==> path_parts(path) == parts_from(path, 0),
{
    lemma_segment(path, at, end);
    if end == path.len() {
        assert(parts_from(path, end + 1) =~= seq![]);
        assert(parts_from(path, at) =~= segment_parts(path.subrange(at, end), at == 0));
    }
    if path.len() > 0 && path[0] == '/' {
        lemma_segment(path, 0, 0);
        assert(path.subrange(0, 0).len() == 0);
        assert(parts_from(path, 0) =~= parts_from(path, 1));
    }
}

/// A sorted list has every text as often as the list, and no text stands behind a greater
/// one.
pub proof fn law_sorted_list(sorted: Seq<Seq<char>>, list: Seq<Seq<char>>, text: Seq<char>)
    requires
        sorts_texts(sorted, list),
    ensures
        sorted.len() == list.len(),
        sorted.contains(text) <==> list.contains(text),
        occurrences(sorted, text).len() == occurrences(list, text).len(),
        forall|i: int, j: int|
            0 <= i < j < sorted.len() ==> !text_before(
                #[trigger] sorted[j],
                #[trigger] sorted[i],
            ),
{
    lemma_occurs(sorted, text);
    lemma_occurs(list, text);
}

proof fn lemma_occurs(list: Seq<Seq<char>>, text: Seq<char>)
    ensures
        list.contains(text) <==> occurrences(list, text).len() > 0,
    decreases list.len(),
{
    reveal(Seq::filter);
    if list.len() > 0 {
        let before = list.drop_last();
        lemma_occurs(before, text);
        assert(list[list.len() - 1] == list.last());
        if before.contains(text) {
            let i = choose|i: int| 0 <= i < before.len() && before[i] == text;
            assert(list[i] == text);
        }
        if list.contains(text) {
            let i = choose|i: int| 0 <= i < list.len() && list[i] == text;
            if i < before.len() {
                assert(before[i] == text);
            }
        }
    }
}

} // verus!
