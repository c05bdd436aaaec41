//! The order of paths: part by part, not character by character.

use crate::sorted::{text_before, SortKey};
use crate::text::{chars_of, same_text};
use vstd::prelude::*;
use vstd::string::*;

verus! {

/// A part of a path.
pub enum PathPart {
    /// The root directory.
    Root,
    /// The directory that a relative path begins in, where it says so.
    Here,
    /// The directory above.
    Up,
    /// A directory or a file.
    Name(String),
}

/// What a [`PathPart`] holds.
pub enum PartView {
    Root,
    Here,
    Up,
    Name(Seq<char>),
}

impl View for PathPart {
    type V = PartView;

    open spec fn view(&self) -> PartView {
        match self {
            PathPart::Root => PartView::Root,
            PathPart::Here => PartView::Here,
            PathPart::Up => PartView::Up,
            PathPart::Name(name) => PartView::Name(name@),
        }
    }
}

/// The parts of a list, as they look.
pub open spec fn part_views(parts: Seq<PathPart>) -> Seq<PartView> {
    parts.map_values(|part: PathPart| part@)
}

/// Where the segment ends that begins at a place: at the next slash, or with the path.
pub open spec fn segment_end(path: Seq<char>, at: int) -> int
    decreases path.len() - at,
{
    if at >= path.len() {
        path.len() as int
    } else if path[at] == '/' {
        at
    } else {
        segment_end(path, at + 1)
    }
}

/// What a segment stands for. Empty ones stand for nothing, and neither does a dot, except
/// where a path begins with it.
pub open spec fn segment_parts(segment: Seq<char>, first: bool) -> Seq<PartView> {
    if segment.len() == 0 {
        seq![]
    } else if segment == "."@ {
        if first {
            seq![PartView::Here]
        } else {
            seq![]
        }
    } else if segment == ".."@ {
        seq![PartView::Up]
    } else {
        seq![PartView::Name(segment)]
    }
}

proof fn lemma_segment_end(path: Seq<char>, at: int)
    requires
        0 <= at <= path.len(),
    ensures
        at <= segment_end(path, at) <= path.len(),
    decreases path.len() - at,
{
    if at < path.len() && path[at] != '/' {
        lemma_segment_end(path, at + 1);
    }
}

/// What the segments stand for from a place on.
pub open spec fn parts_from(path: Seq<char>, at: int) -> Seq<PartView>
    decreases path.len() + 1 - at,
    when 0 <= at
    via parts_from_ends
{
    if at > path.len() {
        seq![]
    } else {
        let end = segment_end(path, at);
        segment_parts(path.subrange(at, end), at == 0) + parts_from(path, end + 1)
    }
}

#[via_fn]
proof fn parts_from_ends(path: Seq<char>, at: int) {
    if at <= path.len() {
        lemma_segment_end(path, at);
    }
}

/// The parts of a path.
pub open spec fn path_parts(path: Seq<char>) -> Seq<PartView> {
    (if path.len() > 0 && path[0] == '/' {
        seq![PartView::Root]
    } else {
        seq![]
    }) + parts_from(path, 0)
}

fn segment_part(segment: &str, first: bool) -> (r: Option<PathPart>)
    ensures
        segment_parts(segment@, first) == (match r {
            None => Seq::<PartView>::empty(),
            Some(part) => seq![part@],
        }),
{
    proof {
        reveal_strlit(".");
        reveal_strlit("..");
    }
    if segment.unicode_len() == 0 {
        None
    } else if same_text(segment, ".") {
        if first {
            Some(PathPart::Here)
        } else {
            None
        }
    } else if same_text(segment, "..") {
        Some(PathPart::Up)
    } else {
        Some(PathPart::Name(segment.to_owned()))
    }
}

/// Takes a path apart.
pub fn parse_path(path: &str) -> (r: Vec<PathPart>)
    ensures
        part_views(r@) == path_parts(path@),
{
    let chars = chars_of(path);
    let mut r: Vec<PathPart> = Vec::new();
    if chars.len() > 0 && chars[0] == '/' {
        r.push(PathPart::Root);
        assert(part_views(r@) =~= seq![PartView::Root]);
    } else {
        assert(part_views(r@) =~= seq![]);
    }
    let mut at: usize = 0;
    let mut done = false;
    while !done
        invariant
            chars@ == path@,
            done ==> path_parts(path@) == part_views(r@),
            !done ==> at <= chars@.len(),
            !done ==> path_parts(path@) == part_views(r@) + parts_from(path@, at as int),
        decreases
            if done {
                0int
            } else {
                chars@.len() + 1 - at
            },
    {
        let ghost before = part_views(r@);
        let ghost rest = parts_from(path@, at as int);
        let mut end: usize = at;
        while end < chars.len() && chars[end] != '/'
            invariant
                chars@ == path@,
                at <= end <= chars@.len(),
                segment_end(path@, at as int) == segment_end(path@, end as int),
            decreases chars@.len() - end,
        {
            end += 1;
        }
        let segment = path.substring_char(at, end);
        let found = segment_part(segment, at == 0);
        match found {
            None => {},
            Some(part) => {
                let ghost view = part@;
                r.push(part);
                assert(part_views(r@) =~= before + seq![view]);
            },
        }
        assert(part_views(r@) =~= before + segment_parts(
            path@.subrange(at as int, end as int),
            at == 0,
        ));
        assert(path_parts(path@) =~= part_views(r@) + parts_from(path@, end + 1));
        if end < chars.len() {
            at = end + 1;
        } else {
            assert(parts_from(path@, end + 1) =~= seq![]);
            done = true;
        }
    }
    r
}

// The order.

/// The kinds of parts, in order.
pub open spec fn part_rank(part: PartView) -> int {
    match part {
        PartView::Root => 0,
        PartView::Here => 1,
        PartView::Up => 2,
        PartView::Name(_) => 3,
    }
}

/// One part comes before another. Names are ordered as texts.
pub open spec fn part_before(a: PartView, b: PartView) -> bool {
    match (a, b) {
        (PartView::Name(a), PartView::Name(b)) => text_before(a, b),
        _ => part_rank(a) < part_rank(b),
    }
}

/// One path comes before another: where they first differ, or as the shorter of the two.
pub open spec fn parts_before(a: Seq<PartView>, b: Seq<PartView>) -> bool
    decreases a.len(),
{
    if b.len() == 0 {
        false
    } else if a.len() == 0 {
        true
    } else if a[0] != b[0] {
        part_before(a[0], b[0])
    } else {
        parts_before(a.skip(1), b.skip(1))
    }
}

proof fn lemma_part_order(a: PartView, b: PartView, c: PartView)
    ensures
        !part_before(a, a),
        part_before(a, b) && part_before(b, c) ==> part_before(a, c),
        a == b || part_before(a, b) || part_before(b, a),
{
    match a {
        PartView::Name(name) => String::irreflexive(name),
        _ => {},
    }
    match (a, b) {
        (PartView::Name(x), PartView::Name(y)) => String::total(x, y),
        _ => {},
    }
    match (a, b, c) {
        (PartView::Name(x), PartView::Name(y), PartView::Name(z)) => {
            if text_before(x, y) && text_before(y, z) {
                String::transitive(x, y, z);
            }
        },
        _ => {},
    }
}

fn part_comes_before(a: &PathPart, b: &PathPart) -> (r: bool)
    ensures
        r == part_before(a@, b@),
{
    match (a, b) {
        (PathPart::Name(a), PathPart::Name(b)) => a.comes_before(b),
        (PathPart::Root, PathPart::Here) => true,
        (PathPart::Root, PathPart::Up) => true,
        (PathPart::Root, PathPart::Name(_)) => true,
        (PathPart::Here, PathPart::Up) => true,
        (PathPart::Here, PathPart::Name(_)) => true,
        (PathPart::Up, PathPart::Name(_)) => true,
        _ => false,
    }
}

/// A path by which something is found.
pub struct PathKey {
    pub parts: Vec<PathPart>,
}

impl SortKey for PathKey {
    type Shape = Seq<PartView>;

    open spec fn shape(&self) -> Seq<PartView> {
        part_views(self.parts@)
    }

    open spec fn before(a: Seq<PartView>, b: Seq<PartView>) -> bool {
        parts_before(a, b)
    }

    proof fn irreflexive(a: Seq<PartView>)
        decreases a.len(),
    {
        if a.len() > 0 {
            Self::irreflexive(a.skip(1));
        }
    }

    proof fn transitive(a: Seq<PartView>, b: Seq<PartView>, c: Seq<PartView>)
        decreases a.len(),
    {
        if a.len() > 0 {
            lemma_part_order(a[0], b[0], c[0]);
            lemma_part_order(b[0], a[0], b[0]);
            if a[0] == b[0] && b[0] == c[0] {
                Self::transitive(a.skip(1), b.skip(1), c.skip(1));
            }
        }
    }

    proof fn total(a: Seq<PartView>, b: Seq<PartView>)
        decreases a.len(),
    {
        if a.len() > 0 && b.len() > 0 {
            lemma_part_order(a[0], b[0], a[0]);
            if a[0] == b[0] {
                Self::total(a.skip(1), b.skip(1));
                if a.skip(1) == b.skip(1) {
                    assert(a =~= seq![a[0]] + a.skip(1));
                    assert(b =~= seq![b[0]] + b.skip(1));
                }
            }
        } else if a.len() == 0 && b.len() == 0 {
            assert(a =~= b);
        }
    }

    fn comes_before(&self, other: &PathKey) -> (r: bool) {
        let ghost left = self.shape();
        let ghost right = other.shape();
        let mut i: usize = 0;
        assert(left.skip(0) =~= left);
        assert(right.skip(0) =~= right);
        while i < self.parts.len() && i < other.parts.len()
            invariant
                left == part_views(self.parts@),
                right == part_views(other.parts@),
                i <= left.len(),
                i <= right.len(),
                parts_before(left, right) == parts_before(
                    left.skip(i as int),
                    right.skip(i as int),
                ),
            decreases left.len() - i,
        {
            proof {
                lemma_part_order(left[i as int], right[i as int], left[i as int]);
                lemma_part_order(right[i as int], left[i as int], right[i as int]);
            }
            if part_comes_before(&self.parts[i], &other.parts[i]) {
                return true;
            }
            if part_comes_before(&other.parts[i], &self.parts[i]) {
                return false;
            }
            assert(left.skip(i as int).skip(1) =~= left.skip(i + 1));
            assert(right.skip(i as int).skip(1) =~= right.skip(i + 1));
            i += 1;
        }
        i < other.parts.len()
    }
}

} // verus!
