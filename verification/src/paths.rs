//! Component-based paths.
//!
//! The index store and the queue identify directories and tracks by their
//! path components.  A [`TrackPath`] is the sequence of those components;
//! its view is the sequence of the components' character sequences.  A path
//! rooted at the library's base is represented by a path that begins with
//! the base path's components; a path relative to the base carries only the
//! trailing components.

use vstd::prelude::*;
use vstd::string::StrSliceExecFns;

verus! {

/// A filesystem path, held as its components.
#[derive(Debug)]
pub struct TrackPath {
    segments: Vec<String>,
}

impl View for TrackPath {
    type V = Seq<Seq<char>>;

    closed spec fn view(&self) -> Seq<Seq<char>> {
        Seq::new(self.segments@.len(), |i: int| self.segments@[i]@)
    }
}

/// The text a path is shown as: its components joined by `/`, except
/// that no separator follows a component that is itself the root `/`.
pub open spec fn displaySpec(p: Seq<Seq<char>>) -> Seq<char>
    decreases p.len(),
{
    if p.len() == 0 {
        Seq::empty()
    } else if p.len() == 1 {
        p[0]
    } else if p[p.len() - 2] == seq!['/'] {
        displaySpec(p.drop_last()) + p.last()
    } else {
        displaySpec(p.drop_last()) + seq!['/'] + p.last()
    }
}

/// Character order: by unicode scalar value, as byte order of encoded
/// text has it.
pub open spec fn charLt(a: char, b: char) -> bool {
    (a as u32) < (b as u32)
}

/// Lexicographic order on components, a proper prefix coming first.
pub open spec fn segLt(a: Seq<char>, b: Seq<char>) -> bool
    decreases a.len(),
{
    if b.len() == 0 {
        false
    } else if a.len() == 0 {
        true
    } else if charLt(a[0], b[0]) {
        true
    } else if a[0] == b[0] {
        segLt(a.skip(1), b.skip(1))
    } else {
        false
    }
}

/// Lexicographic order on paths: component by component, a proper prefix
/// coming first — the order directory listings are shown in.
pub open spec fn pathLt(a: Seq<Seq<char>>, b: Seq<Seq<char>>) -> bool
    decreases a.len(),
{
    if b.len() == 0 {
        false
    } else if a.len() == 0 {
        true
    } else if segLt(a[0], b[0]) {
        true
    } else if a[0] == b[0] {
        pathLt(a.skip(1), b.skip(1))
    } else {
        false
    }
}

/// Characters with the same scalar value are the same character.
proof fn charEqFromScalarLemma(a: char, b: char)
    requires
        a as u32 == b as u32,
    ensures
        a == b,
{
    vstd::utf8::char_u32_cast(a, a as u32);
    vstd::utf8::char_u32_cast(b, b as u32);
}

/// No component comes before itself.
pub proof fn segLtIrreflexiveLemma(a: Seq<char>)
    ensures
        !segLt(a, a),
    decreases a.len(),
{
    if a.len() > 0 {
        segLtIrreflexiveLemma(a.skip(1));
    }
}

/// Any two components are ordered or equal.
pub proof fn segLtTrichotomyLemma(a: Seq<char>, b: Seq<char>)
    ensures
        segLt(a, b) || segLt(b, a) || a == b,
    decreases a.len(),
{
    if a.len() == 0 {
        if b.len() == 0 {
            assert(a =~= b);
        }
    } else if b.len() > 0 {
        if !charLt(a[0], b[0]) && !charLt(b[0], a[0]) {
            charEqFromScalarLemma(a[0], b[0]);
            segLtTrichotomyLemma(a.skip(1), b.skip(1));
            if a.skip(1) == b.skip(1) {
                assert(a.skip(1).len() == b.skip(1).len());
                assert(a.len() == b.len());
                assert forall|i: int| 0 <= i < a.len() implies a[i] == b[i] by {
                    if i > 0 {
                        assert(a.skip(1)[i - 1] == a[i]);
                        assert(b.skip(1)[i - 1] == b[i]);
                    }
                }
                assert(a =~= b);
            }
        }
    }
}

/// The component order is transitive.
pub proof fn segLtTransitiveLemma(a: Seq<char>, b: Seq<char>, c: Seq<char>)
    requires
        segLt(a, b),
        segLt(b, c),
    ensures
        segLt(a, c),
    decreases a.len(),
{
    if a.len() > 0 {
        if !charLt(a[0], b[0]) {
            assert(a[0] == b[0]);
            if !charLt(b[0], c[0]) {
                assert(b[0] == c[0]);
                segLtTransitiveLemma(a.skip(1), b.skip(1), c.skip(1));
            }
        } else {
            if !charLt(b[0], c[0]) {
                assert(b[0] == c[0]);
            }
        }
    }
}

/// No path comes before itself.
pub proof fn pathLtIrreflexiveLemma(a: Seq<Seq<char>>)
    ensures
        !pathLt(a, a),
    decreases a.len(),
{
    if a.len() > 0 {
        segLtIrreflexiveLemma(a[0]);
        pathLtIrreflexiveLemma(a.skip(1));
    }
}

/// Any two paths are ordered or equal.
pub proof fn pathLtTrichotomyLemma(a: Seq<Seq<char>>, b: Seq<Seq<char>>)
    ensures
        pathLt(a, b) || pathLt(b, a) || a == b,
    decreases a.len(),
{
    if a.len() == 0 {
        if b.len() == 0 {
            assert(a =~= b);
        }
    } else if b.len() > 0 {
        segLtTrichotomyLemma(a[0], b[0]);
        if !segLt(a[0], b[0]) && !segLt(b[0], a[0]) {
            assert(a[0] == b[0]);
            pathLtTrichotomyLemma(a.skip(1), b.skip(1));
            if a.skip(1) == b.skip(1) {
                assert(a.skip(1).len() == b.skip(1).len());
                assert(a.len() == b.len());
                assert forall|i: int| 0 <= i < a.len() implies a[i] == b[i] by {
                    if i > 0 {
                        assert(a.skip(1)[i - 1] == a[i]);
                        assert(b.skip(1)[i - 1] == b[i]);
                    }
                }
                assert(a =~= b);
            }
        }
    }
}

/// The path order is transitive.
pub proof fn pathLtTransitiveLemma(a: Seq<Seq<char>>, b: Seq<Seq<char>>, c: Seq<Seq<char>>)
    requires
        pathLt(a, b),
        pathLt(b, c),
    ensures
        pathLt(a, c),
    decreases a.len(),
{
    if a.len() > 0 {
        if !segLt(a[0], b[0]) {
            assert(a[0] == b[0]);
            if !segLt(b[0], c[0]) {
                assert(b[0] == c[0]);
                pathLtTransitiveLemma(a.skip(1), b.skip(1), c.skip(1));
            }
        } else {
            if !segLt(b[0], c[0]) {
                assert(b[0] == c[0]);
                segLtIrreflexiveLemma(a[0]);
            } else {
                segLtTransitiveLemma(a[0], b[0], c[0]);
            }
        }
    }
}

/// Decide the component order from position `i` on.
fn segLessFrom(a: &str, b: &str, i: usize) -> (r: bool)
    requires
        i <= a@.len(),
        i <= b@.len(),
    ensures
        r == segLt(a@.skip(i as int), b@.skip(i as int)),
    decreases b@.len() - i,
{
    let bLen = b.unicode_len();
    if i >= bLen {
        proof {
            assert(b@.skip(i as int).len() == 0);
        }
        return false;
    }
    let aLen = a.unicode_len();
    proof {
        assert(b@.skip(i as int)[0] == b@[i as int]);
    }
    if i >= aLen {
        proof {
            assert(a@.skip(i as int).len() == 0);
        }
        return true;
    }
    let ca = a.get_char(i);
    let cb = b.get_char(i);
    proof {
        assert(a@.skip(i as int)[0] == a@[i as int]);
    }
    if (ca as u32) < (cb as u32) {
        true
    } else if (cb as u32) < (ca as u32) {
        proof {
            assert(!(a@[i as int] == b@[i as int]));
        }
        false
    } else {
        proof {
            charEqFromScalarLemma(ca, cb);
            assert(a@.skip(i as int).skip(1) =~= a@.skip(i + 1));
            assert(b@.skip(i as int).skip(1) =~= b@.skip(i + 1));
        }
        segLessFrom(a, b, i + 1)
    }
}

/// Decide the component order.
fn segLess(a: &String, b: &String) -> (r: bool)
    ensures
        r == segLt(a@, b@),
{
    let r = segLessFrom(a.as_str(), b.as_str(), 0);
    proof {
        assert(a@.skip(0) =~= a@);
        assert(b@.skip(0) =~= b@);
    }
    r
}

/// `p` is a (not necessarily strict) component prefix of `q`.
pub open spec fn isPrefixOf(p: Seq<Seq<char>>, q: Seq<Seq<char>>) -> bool {
    p.len() <= q.len() && p =~= q.subrange(0, p.len() as int)
}

/// `p` is a strict component prefix of `q`.
pub open spec fn isStrictPrefixOf(p: Seq<Seq<char>>, q: Seq<Seq<char>>) -> bool {
    isPrefixOf(p, q) && p.len() < q.len()
}

impl TrackPath {
    /// The empty path, with no components.
    pub fn empty() -> (r: TrackPath)
        ensures
            r@ =~= Seq::<Seq<char>>::empty(),
    {
        TrackPath { segments: Vec::new() }
    }

    /// Build a path from its components.
    pub fn fromSegments(segments: Vec<String>) -> (r: TrackPath)
        ensures
            r@ =~= Seq::new(segments@.len(), |i: int| segments@[i]@),
    {
        TrackPath { segments }
    }

    /// The number of components.
    pub fn segmentCount(&self) -> (r: usize)
        ensures
            r == self@.len(),
    {
        self.segments.len()
    }

    /// Borrow the component at `index`.
    pub fn segmentAt(&self, index: usize) -> (r: &String)
        requires
            index < self@.len(),
        ensures
            r@ == self@[index as int],
    {
        &self.segments[index]
    }

    /// An exact copy of this path.
    pub fn duplicate(&self) -> (r: TrackPath)
        ensures
            r@ =~= self@,
    {
        let mut segments: Vec<String> = Vec::new();
        let mut i: usize = 0;
        while i < self.segments.len()
            invariant
                i <= self.segments@.len(),
                segments@.len() == i,
                forall|j: int| 0 <= j < i ==> segments@[j]@ == #[trigger] self.segments@[j]@,
            decreases self.segments@.len() - i,
        {
            segments.push(self.segments[i].clone());
            i = i + 1;
        }
        TrackPath { segments }
    }

    /// Whether the two paths have the same components.
    pub fn sameAs(&self, other: &TrackPath) -> (r: bool)
        ensures
            r == (self@ == other@),
    {
        if self.segments.len() != other.segments.len() {
            proof {
                assert(self@.len() != other@.len());
            }
            return false;
        }
        let mut i: usize = 0;
        while i < self.segments.len()
            invariant
                i <= self.segments@.len(),
                self.segments@.len() == other.segments@.len(),
                forall|j: int| 0 <= j < i ==> self@[j] == other@[j],
            decreases self.segments@.len() - i,
        {
            if !(self.segments[i] == other.segments[i]) {
                proof {
                    assert(self@[i as int] != other@[i as int]);
                }
                return false;
            }
            i = i + 1;
        }
        proof {
            assert(self@ =~= other@);
        }
        true
    }

    /// Whether this path begins with all of `prefix`'s components.
    pub fn startsWith(&self, prefix: &TrackPath) -> (r: bool)
        ensures
            r == isPrefixOf(prefix@, self@),
    {
        if prefix.segments.len() > self.segments.len() {
            return false;
        }
        let mut i: usize = 0;
        while i < prefix.segments.len()
            invariant
                i <= prefix.segments@.len(),
                prefix.segments@.len() <= self.segments@.len(),
                forall|j: int| 0 <= j < i ==> prefix@[j] == self@[j],
            decreases prefix.segments@.len() - i,
        {
            if !(prefix.segments[i] == self.segments[i]) {
                proof {
                    assert(prefix@[i as int] != self@[i as int]);
                    assert(!isPrefixOf(prefix@, self@)) by {
                        if isPrefixOf(prefix@, self@) {
                            assert(prefix@[i as int] == self@.subrange(
                                0,
                                prefix@.len() as int,
                            )[i as int]);
                        }
                    }
                }
                return false;
            }
            i = i + 1;
        }
        proof {
            assert(prefix@ =~= self@.subrange(0, prefix@.len() as int));
        }
        true
    }

    /// Append one component.
    fn pushSegment(&mut self, segment: String)
        ensures
            final(self)@ =~= old(self)@ + seq![segment@],
    {
        let ghost oldSegments = self.segments@;
        self.segments.push(segment);
        proof {
            assert forall|j: int| 0 <= j < self@.len() implies self@[j] == (old(self)@ + seq![
                segment@,
            ])[j] by {
                if j < oldSegments.len() {
                    assert(self.segments@[j] == oldSegments[j]);
                }
            }
        }
    }

    /// This path extended by one more component.
    pub fn child(&self, segment: &String) -> (r: TrackPath)
        ensures
            r@ =~= self@ + seq![segment@],
    {
        let mut r = self.duplicate();
        r.pushSegment(segment.clone());
        r
    }

    /// The two paths' components, one after the other.
    pub fn join(&self, tail: &TrackPath) -> (r: TrackPath)
        ensures
            r@ =~= self@ + tail@,
    {
        let mut r = self.duplicate();
        let mut i: usize = 0;
        while i < tail.segments.len()
            invariant
                i <= tail.segments@.len(),
                r@ =~= self@ + tail@.subrange(0, i as int),
            decreases tail.segments@.len() - i,
        {
            proof {
                assert(tail@.subrange(0, i + 1) =~= tail@.subrange(0, i as int) + seq![
                    tail@[i as int],
                ]);
            }
            r.pushSegment(tail.segments[i].clone());
            proof {
                assert(r@ =~= self@ + tail@.subrange(0, i + 1));
            }
            i = i + 1;
        }
        proof {
            assert(tail@.subrange(0, tail@.len() as int) =~= tail@);
        }
        r
    }

    /// The path's display text: its components joined by `/`, with no
    /// separator after a component that is itself the root `/`.
    pub fn display(&self) -> (r: String)
        ensures
            r@ == displaySpec(self@),
    {
        let slash: String = "/".to_owned();
        proof {
            reveal_strlit("/");
        }
        let mut out = String::new();
        let mut i: usize = 0;
        while i < self.segments.len()
            invariant
                i <= self.segments@.len(),
                slash@ == seq!['/'],
                out@ == displaySpec(self@.subrange(0, i as int)),
            decreases self.segments@.len() - i,
        {
            if i > 0 && !(self.segments[i - 1] == slash) {
                out.append("/");
                proof {
                    reveal_strlit("/");
                }
            }
            out.append(self.segments[i].as_str());
            proof {
                let prefix = self@.subrange(0, i + 1);
                assert(prefix.drop_last() =~= self@.subrange(0, i as int));
                assert(prefix.last() == self@[i as int]);
                if i > 0 {
                    assert(prefix[i - 1] == self@[i - 1]);
                }
                assert(out@ =~= displaySpec(prefix));
            }
            i = i + 1;
        }
        proof {
            assert(self@.subrange(0, self@.len() as int) =~= self@);
        }
        out
    }

    /// Decide the path order from component `i` on.
    fn pathLessFrom(&self, other: &TrackPath, i: usize) -> (r: bool)
        requires
            i <= self@.len(),
            i <= other@.len(),
        ensures
            r == pathLt(self@.skip(i as int), other@.skip(i as int)),
        decreases other@.len() - i,
    {
        if i >= other.segments.len() {
            proof {
                assert(other@.skip(i as int).len() == 0);
            }
            return false;
        }
        proof {
            assert(other@.skip(i as int)[0] == other@[i as int]);
        }
        if i >= self.segments.len() {
            proof {
                assert(self@.skip(i as int).len() == 0);
            }
            return true;
        }
        proof {
            assert(self@.skip(i as int)[0] == self@[i as int]);
        }
        if segLess(&self.segments[i], &other.segments[i]) {
            true
        } else if self.segments[i] == other.segments[i] {
            proof {
                assert(self@.skip(i as int).skip(1) =~= self@.skip(i + 1));
                assert(other@.skip(i as int).skip(1) =~= other@.skip(i + 1));
            }
            self.pathLessFrom(other, i + 1)
        } else {
            false
        }
    }

    /// Whether this path comes before `other` in listing order.
    pub fn pathLess(&self, other: &TrackPath) -> (r: bool)
        ensures
            r == pathLt(self@, other@),
    {
        let r = self.pathLessFrom(other, 0);
        proof {
            assert(self@.skip(0) =~= self@);
            assert(other@.skip(0) =~= other@);
        }
        r
    }

    /// The final component, if the path has one.
    pub fn lastSegment(&self) -> (r: Option<&String>)
        ensures
            match r {
                Some(s) => self@.len() > 0 && s@ == self@[self@.len() - 1],
                None => self@.len() == 0,
            },
    {
        if self.segments.len() == 0 {
            None
        } else {
            Some(&self.segments[self.segments.len() - 1])
        }
    }
}

} // verus!
