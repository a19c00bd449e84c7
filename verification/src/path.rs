//! Paths relative to the root of the repository.

use vstd::prelude::*;
use vstd::slice::slice_subrange;
use vstd::string::StringExecFns;

verus! {

/// The segments of a path as text, separated by slashes.
pub open spec fn unix_text(segments: Seq<Seq<char>>) -> Seq<char>
    decreases segments.len(),
{
    if segments.len() == 0 {
        Seq::empty()
    } else if segments.len() == 1 {
        segments[0]
    } else {
        unix_text(segments.drop_last()) + "/"@ + segments.last()
    }
}

/// Whether a text can be a segment of a path: it has no slash, and it is not empty.
pub open spec fn is_segment(text: Seq<char>) -> bool {
    text.len() > 0 && !text.contains('/')
}

/// Whether texts are the segments of a path.
pub open spec fn is_path(segments: Seq<Seq<char>>) -> bool {
    forall|i: int| 0 <= i < segments.len() ==> is_segment(#[trigger] segments[i])
}

/// Different paths have different texts.
pub proof fn unix_text_injective(a: Seq<Seq<char>>, b: Seq<Seq<char>>)
    requires
        is_path(a),
        is_path(b),
        unix_text(a) == unix_text(b),
    ensures
        a == b,
    decreases a.len(),
{
    if a.len() == 0 || b.len() == 0 {
        if a.len() > 0 {
            unix_text_ends(a);
        }
        if b.len() > 0 {
            unix_text_ends(b);
        }
        assert(a =~= b);
    } else {
        unix_text_ends(a);
        unix_text_ends(b);
        let text = unix_text(a);
        let (start_a, start_b) = (text.len() - a.last().len(), text.len() - b.last().len());
        if start_a < start_b {
            assert(text[start_b - 1] == a.last()[start_b - 1 - start_a]);
            assert(a.last().contains('/'));
        }
        if start_b < start_a {
            assert(text[start_a - 1] == b.last()[start_a - 1 - start_b]);
            assert(b.last().contains('/'));
        }
        assert(start_a == start_b);
        assert forall|k: int| 0 <= k < a.last().len() implies a.last()[k] == b.last()[k] by {
            assert(text[start_a + k] == a.last()[k]);
        }
        assert(a.last() =~= b.last());
        if start_a > 0 {
            assert(unix_text(a.drop_last()) =~= text.take(start_a - 1));
            assert(unix_text(b.drop_last()) =~= text.take(start_a - 1));
            unix_text_injective(a.drop_last(), b.drop_last());
        }
        assert(a =~= a.drop_last().push(a.last()));
        assert(b =~= b.drop_last().push(b.last()));
    }
}

/// The text of a path ends with the last segment, and before that with a slash, unless there is but
/// one segment.
proof fn unix_text_ends(path: Seq<Seq<char>>)
    requires
        is_path(path),
        path.len() > 0,
    ensures
        is_segment(path.last()),
        is_path(path.drop_last()),
        ({
            let text = unix_text(path);
            let start = text.len() - path.last().len();
            &&& start >= 0
            &&& forall|i: int| start <= i < text.len() ==> #[trigger] text[i] == path.last()[i - start]
            &&& start == 0 <==> path.len() == 1
            &&& start > 0 ==> text[start - 1] == '/'
            &&& start > 0 ==> text.take(start - 1) == unix_text(path.drop_last())
        }),
{
    reveal_strlit("/");
    if path.len() > 1 {
        let text = unix_text(path);
        let before = unix_text(path.drop_last());
        assert(text == before + "/"@ + path.last());
        assert(text.take(before.len() as int) =~= before);
    }
}

/// A path anchored at the root of the repository, owned. The path without segments is the root
/// itself.
#[derive(Debug, PartialEq, Eq, Hash)]
pub struct AnchoredSystemPathBuf {
    segments: Vec<String>,
}

impl View for AnchoredSystemPathBuf {
    type V = Seq<Seq<char>>;

    /// The text of each segment.
    closed spec fn view(&self) -> Seq<Seq<char>> {
        self.segments@.map_values(|segment: String| segment@)
    }
}

impl Default for AnchoredSystemPathBuf {
    fn default() -> (path: Self)
        ensures
            path@ == Seq::<Seq<char>>::empty(),
    {
        AnchoredSystemPathBuf::new(Vec::new())
    }
}

impl Clone for AnchoredSystemPathBuf {
    fn clone(&self) -> (copy: Self)
        ensures
            copy@ == self@,
    {
        proof {
            use_type_invariant(self);
        }
        let segments = self.segments.clone();
        assert(segments@.map_values(|segment: String| segment@) =~= self@);
        AnchoredSystemPathBuf { segments }
    }
}

impl AnchoredSystemPathBuf {
    /// What holds of every path: its segments are neither empty nor do they hold a slash.
    #[verifier::type_invariant]
    pub open spec fn has_segments(self) -> bool {
        is_path(self@)
    }

    /// The path with the given segments.
    pub fn new(segments: Vec<String>) -> (path: Self)
        requires
            is_path(segments@.map_values(|segment: String| segment@)),
        ensures
            path@ == segments@.map_values(|segment: String| segment@),
    {
        AnchoredSystemPathBuf { segments }
    }

    /// The path, borrowed.
    pub fn as_path(&self) -> (path: AnchoredSystemPath<'_>)
        ensures
            path@ == self@,
    {
        proof {
            use_type_invariant(self);
        }
        AnchoredSystemPath { segments: self.segments.as_slice() }
    }
}

/// A path anchored at the root of the repository, borrowed.
#[derive(Debug, PartialEq, Eq, Hash)]
pub struct AnchoredSystemPath<'a> {
    segments: &'a [String],
}

impl<'a> View for AnchoredSystemPath<'a> {
    type V = Seq<Seq<char>>;

    /// The text of each segment.
    closed spec fn view(&self) -> Seq<Seq<char>> {
        self.segments@.map_values(|segment: String| segment@)
    }
}

impl<'a> Clone for AnchoredSystemPath<'a> {
    fn clone(&self) -> (copy: Self)
        ensures
            copy == *self,
    {
        *self
    }
}

impl<'a> Copy for AnchoredSystemPath<'a> {

}

impl<'a> AnchoredSystemPath<'a> {
    /// What holds of every path: its segments are neither empty nor do they hold a slash.
    #[verifier::type_invariant]
    pub open spec fn has_segments(self) -> bool {
        is_path(self@)
    }

    /// The path without its last segment; the root has no parent.
    pub fn parent(&self) -> (parent: Option<AnchoredSystemPath<'a>>)
        ensures
            match parent {
                Some(path) => self@.len() > 0 && path@ == self@.drop_last(),
                None => self@.len() == 0,
            },
    {
        let len = self.segments.len();
        if len == 0 {
            None
        } else {
            proof {
                use_type_invariant(self);
            }
            let segments = slice_subrange(self.segments, 0, len - 1);
            assert(segments@.map_values(|segment: String| segment@) =~= self@.drop_last());
            Some(AnchoredSystemPath { segments })
        }
    }

    /// The path of the root of the repository.
    pub fn root() -> (path: AnchoredSystemPath<'static>)
        ensures
            path@ == Seq::<Seq<char>>::empty(),
    {
        let path = AnchoredSystemPath { segments: &[] };
        assert(path@ =~= Seq::<Seq<char>>::empty());
        path
    }

    /// The path with slashes between its segments.
    pub fn to_unix(&self) -> (text: String)
        ensures
            text@ == unix_text(self@),
    {
        let mut text = String::new();
        let mut i: usize = 0;
        while i < self.segments.len()
            invariant
                i <= self.segments@.len(),
                text@ == unix_text(self@.take(i as int)),
            decreases self.segments@.len() - i,
        {
            let ghost next = self@.take(i + 1);
            assert(next.drop_last() =~= self@.take(i as int));
            if i > 0 {
                text.append("/");
            }
            text.append(self.segments[i].as_str());
            assert(next.last() == self.segments@[i as int]@);
            assert(text@ =~= unix_text(next));
            i = i + 1;
        }
        assert(self@.take(i as int) =~= self@);
        text
    }
}

/// The text of the root is empty, that of a path of one segment is the segment, and one more segment
/// is joined by a slash.
pub proof fn segments_are_joined(segments: Seq<Seq<char>>, last: Seq<char>)
    ensures
        unix_text(Seq::<Seq<char>>::empty()) == Seq::<char>::empty(),
        unix_text(seq![last]) == last,
        segments.len() > 0 ==> unix_text(segments.push(last)) == unix_text(segments) + "/"@ + last,
{
    assert(segments.push(last).drop_last() =~= segments);
}

/// A path has the segments that it is made of; its parent has all of them but the last one, and a
/// path without segments has no parent. The text of a path is that of its parent and its last
/// segment, with a slash between them unless the parent is the root.
pub proof fn path_is_written(
    segments: Vec<String>,
    buf: AnchoredSystemPathBuf,
    path: AnchoredSystemPath<'_>,
    text: String,
    parent: Option<AnchoredSystemPath<'_>>,
)
    requires
        call_ensures(AnchoredSystemPathBuf::new, (segments,), buf),
        call_ensures(AnchoredSystemPathBuf::as_path, (&buf,), path),
        call_ensures(AnchoredSystemPath::to_unix, (&path,), text),
        call_ensures(AnchoredSystemPath::parent, (&path,), parent),
    ensures
        path@.len() == segments@.len(),
        forall|i: int| 0 <= i < path@.len() ==> #[trigger] path@[i] == segments@[i]@,
        parent is None <==> segments@.len() == 0,
        segments@.len() == 0 ==> text@ == Seq::<char>::empty(),
        parent matches Some(parent) ==> {
            &&& parent@.len() == segments@.len() - 1
            &&& forall|i: int| 0 <= i < parent@.len() ==> #[trigger] parent@[i] == segments@[i]@
            &&& forall|before: String| #[trigger]
                call_ensures(AnchoredSystemPath::to_unix, (&parent,), before) ==> text@
                    == if segments@.len() == 1 {
                    segments@[0]@
                } else {
                    before@ + "/"@ + segments@.last()@
                }
        },
{
    if segments@.len() > 0 {
        let whole = path@;
        assert(whole.last() == segments@.last()@);
        assert(whole =~= whole.drop_last().push(whole.last()));
        segments_are_joined(whole.drop_last(), whole.last());
    }
}

/// The root has no segments.
pub proof fn root_has_no_segments(path: AnchoredSystemPath<'static>)
    requires
        call_ensures(AnchoredSystemPath::root, (), path),
    ensures
        path@.len() == 0,
{
}

} // verus!
