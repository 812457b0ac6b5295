//! A filesystem path modelled as its sequence of segments.
//!
//! The scanners reason about paths structurally (join, parent, prefix),
//! never through the operating system, so a path here is an absolute path's
//! segment list; the shell converts real paths to and from this form.

use vstd::prelude::*;

use crate::text::chars_to_string;
use crate::text::str_chars;
use crate::text::str_eq;

verus! {

/// An absolute filesystem path: the list of its segments, root first.
/// The filesystem root is the empty segment list.
pub struct FsPath {
    pub segments: Vec<String>,
}

impl View for FsPath {
    type V = Seq<Seq<char>>;

    open spec fn view(&self) -> Seq<Seq<char>> {
        self.segments@.map_values(|s: String| s@)
    }
}

/// Whether `p` is a (not necessarily strict) leading prefix of `q`.
pub open spec fn is_path_prefix(p: Seq<Seq<char>>, q: Seq<Seq<char>>) -> bool {
    p.len() <= q.len() && p == q.subrange(0, p.len() as int)
}

/// Splits `s` at every occurrence of `sep`; always yields at least one part.
pub open spec fn split_char(s: Seq<char>, sep: char) -> Seq<Seq<char>>
    decreases s.len(),
{
    if s.len() == 0 {
        seq![s]
    } else if s.last() == sep {
        split_char(s.drop_last(), sep).push(Seq::empty())
    } else {
        let r = split_char(s.drop_last(), sep);
        r.update(r.len() - 1, r.last().push(s.last()))
    }
}

pub proof fn lemma_split_char_nonempty(s: Seq<char>, sep: char)
    ensures
        split_char(s, sep).len() >= 1,
    decreases s.len(),
{
    if s.len() > 0 {
        lemma_split_char_nonempty(s.drop_last(), sep);
    }
}

/// One step of relative-path application: `..` pops a segment, `.` and the
/// empty segment are skipped, anything else is appended.
pub open spec fn apply_seg(base: Seq<Seq<char>>, seg: Seq<char>) -> Seq<Seq<char>> {
    if seg == seq!['.', '.'] {
        if base.len() > 0 {
            base.drop_last()
        } else {
            base
        }
    } else if seg.len() == 0 || seg == seq!['.'] {
        base
    } else {
        base.push(seg)
    }
}

/// Applies the segments of a relative reference to `base`, left to right.
pub open spec fn apply_segs(base: Seq<Seq<char>>, segs: Seq<Seq<char>>) -> Seq<Seq<char>>
    decreases segs.len(),
{
    if segs.len() == 0 {
        base
    } else {
        apply_seg(apply_segs(base, segs.drop_last()), segs.last())
    }
}

/// The path named by the relative reference `rel` (a `/`-separated string,
/// `.` and `..` understood) against the directory `base`.
pub open spec fn joined_path(base: Seq<Seq<char>>, rel: Seq<char>) -> Seq<Seq<char>> {
    apply_segs(base, split_char(rel, '/'))
}

/// The segments joined with `sep` between them.
pub open spec fn joined(v: Seq<Seq<char>>, sep: char) -> Seq<char>
    decreases v.len(),
{
    if v.len() == 0 {
        Seq::empty()
    } else if v.len() == 1 {
        v[0]
    } else {
        joined(v.drop_last(), sep) + seq![sep] + v.last()
    }
}

/// Display form of an absolute path: `/` followed by the joined segments.
pub open spec fn abs_display(v: Seq<Seq<char>>) -> Seq<char> {
    seq!['/'] + joined(v, '/')
}

/// Index of the final dot of a file name, counting only dots after the
/// first character; negative when there is none.
pub open spec fn g_stem_end(name: Seq<char>) -> int
    decreases name.len(),
{
    if name.len() <= 1 {
        -1
    } else if name.last() == '.' {
        name.len() - 1
    } else {
        g_stem_end(name.drop_last())
    }
}

/// The stem of a file name: the part before its final dot, or the whole
/// name when `g_stem_end` finds no dot.
pub open spec fn g_stem(name: Seq<char>) -> Seq<char> {
    let k = g_stem_end(name);
    if k < 0 {
        name
    } else {
        name.subrange(0, k)
    }
}

/// The extension of a file name: the part after its final dot, if any.
pub open spec fn g_ext(name: Seq<char>) -> Option<Seq<char>> {
    let k = g_stem_end(name);
    if k < 0 {
        None
    } else {
        Some(name.subrange(k + 1, name.len() as int))
    }
}

impl FsPath {
    /// An identical copy of this path.
    pub fn duplicate(&self) -> (r: FsPath)
        ensures
            r@ == self@,
    {
        let mut v: Vec<String> = Vec::new();
        let mut i: usize = 0;
        while i < self.segments.len()
            invariant
                i <= self.segments.len(),
                v@.len() == i,
                forall|j: int| 0 <= j < i ==> v@[j]@ == self.segments@[j]@,
            decreases self.segments.len() - i,
        {
            v.push(self.segments[i].clone());
            i = i + 1;
        }
        let r = FsPath { segments: v };
        proof {
            assert(r@ =~= self@);
        }
        r
    }

    /// Number of segments.
    pub fn depth(&self) -> (r: usize)
        ensures
            r == self@.len(),
    {
        self.segments.len()
    }

    /// This path extended by one more segment.
    pub fn child(&self, seg: &str) -> (r: FsPath)
        ensures
            r@ == self@.push(seg@),
    {
        let mut r = self.duplicate();
        r.segments.push(seg.to_owned());
        proof {
            assert(r@ =~= self@.push(seg@));
        }
        r
    }

    /// The parent directory; `None` for the root.
    pub fn parent(&self) -> (r: Option<FsPath>)
        ensures
            match r {
                Some(p) => self@.len() > 0 && p@ == self@.drop_last(),
                None => self@.len() == 0,
            },
    {
        self.ancestor_up(1)
    }

    /// The path `n` levels up; `None` when fewer than `n` segments exist.
    pub fn ancestor_up(&self, n: usize) -> (r: Option<FsPath>)
        ensures
            match r {
                Some(p) => n <= self@.len() && p@ == self@.subrange(0, self@.len() - n),
                None => self@.len() < n,
            },
    {
        if self.segments.len() < n {
            return None;
        }
        let keep = self.segments.len() - n;
        let mut v: Vec<String> = Vec::new();
        let mut i: usize = 0;
        while i < keep
            invariant
                i <= keep,
                keep <= self.segments.len(),
                v@.len() == i,
                forall|j: int| 0 <= j < i ==> v@[j]@ == self.segments@[j]@,
            decreases keep - i,
        {
            v.push(self.segments[i].clone());
            i = i + 1;
        }
        let p = FsPath { segments: v };
        proof {
            assert(p@ =~= self@.subrange(0, self@.len() - n));
        }
        Some(p)
    }

    /// The last segment, if any.
    pub fn last_segment(&self) -> (r: Option<&String>)
        ensures
            match r {
                Some(s) => self@.len() > 0 && s@ == self@.last(),
                None => self@.len() == 0,
            },
    {
        if self.segments.len() == 0 {
            None
        } else {
            Some(&self.segments[self.segments.len() - 1])
        }
    }

    /// Whether the last segment equals `seg`.
    pub fn ends_with_seg(&self, seg: &str) -> (r: bool)
        ensures
            r == (self@.len() > 0 && self@.last() == seg@),
    {
        match self.last_segment() {
            Some(s) => str_eq(s.as_str(), seg),
            None => false,
        }
    }

    /// Structural equality of two paths.
    pub fn eq_path(&self, other: &FsPath) -> (r: bool)
        ensures
            r == (self@ == other@),
    {
        proof {
            assert(self@.len() == self.segments@.len());
            assert(other@.len() == other.segments@.len());
        }
        if self.segments.len() != other.segments.len() {
            return false;
        }
        let mut i: usize = 0;
        while i < self.segments.len()
            invariant
                i <= self.segments.len(),
                self.segments.len() == other.segments.len(),
                self@.len() == self.segments@.len(),
                other@.len() == other.segments@.len(),
                forall|j: int| 0 <= j < i ==> self@[j] == other@[j],
            decreases self.segments.len() - i,
        {
            if !str_eq(self.segments[i].as_str(), other.segments[i].as_str()) {
                proof {
                    assert(self@[i as int] == self.segments@[i as int]@);
                    assert(other@[i as int] == other.segments@[i as int]@);
                }
                return false;
            }
            i = i + 1;
        }
        proof {
            assert(self@ =~= other@);
        }
        true
    }

    /// Whether `prefix` is a leading prefix of this path.
    pub fn starts_with(&self, prefix: &FsPath) -> (r: bool)
        ensures
            r == is_path_prefix(prefix@, self@),
    {
        if prefix.segments.len() > self.segments.len() {
            return false;
        }
        let mut i: usize = 0;
        while i < prefix.segments.len()
            invariant
                i <= prefix.segments.len(),
                prefix.segments.len() <= self.segments.len(),
                forall|j: int| 0 <= j < i ==> prefix@[j] == self@[j],
            decreases prefix.segments.len() - i,
        {
            if !str_eq(prefix.segments[i].as_str(), self.segments[i].as_str()) {
                proof {
                    assert(self@.subrange(0, prefix@.len() as int)[i as int] == self@[i as int]);
                }
                return false;
            }
            i = i + 1;
        }
        proof {
            assert(prefix@ =~= self@.subrange(0, prefix@.len() as int));
        }
        true
    }

    /// The remainder of this path after removing the leading `prefix`;
    /// `None` when `prefix` does not lead this path.
    pub fn strip_prefix(&self, prefix: &FsPath) -> (r: Option<FsPath>)
        ensures
            match r {
                Some(rest) => is_path_prefix(prefix@, self@) && rest@ == self@.subrange(
                    prefix@.len() as int,
                    self@.len() as int,
                ),
                None => !is_path_prefix(prefix@, self@),
            },
    {
        if !self.starts_with(prefix) {
            return None;
        }
        let mut v: Vec<String> = Vec::new();
        let mut i: usize = prefix.segments.len();
        while i < self.segments.len()
            invariant
                prefix.segments.len() <= i <= self.segments.len(),
                v@.len() == i - prefix.segments.len(),
                forall|j: int|
                    0 <= j < v@.len() ==> v@[j]@ == self.segments@[j + prefix.segments@.len()]@,
            decreases self.segments.len() - i,
        {
            v.push(self.segments[i].clone());
            i = i + 1;
        }
        let rest = FsPath { segments: v };
        proof {
            assert(rest@ =~= self@.subrange(prefix@.len() as int, self@.len() as int));
        }
        Some(rest)
    }

    /// The path named by `rel` (slash-separated, `.` and `..` understood)
    /// relative to this directory.
    pub fn join_rel(&self, rel: &str) -> (r: FsPath)
        ensures
            r@ == joined_path(self@, rel@),
    {
        let chars = str_chars(rel);
        // Split `rel` on '/'.
        let mut parts: Vec<Vec<char>> = Vec::new();
        let mut cur: Vec<char> = Vec::new();
        let mut i: usize = 0;
        proof {
            assert(chars@.subrange(0, 0) =~= Seq::<char>::empty());
            assert(split_char(Seq::<char>::empty(), '/') =~= seq![Seq::<char>::empty()]);
        }
        while i < chars.len()
            invariant
                i <= chars.len(),
                split_char(chars@.subrange(0, i as int), '/') == parts@.map_values(
                    |p: Vec<char>| p@,
                ).push(cur@),
            decreases chars.len() - i,
        {
            let ghost pre = chars@.subrange(0, i as int);
            let ghost post = chars@.subrange(0, i as int + 1);
            proof {
                assert(post.drop_last() =~= pre);
                lemma_split_char_nonempty(pre, '/');
            }
            let c = chars[i];
            if c == '/' {
                parts.push(cur);
                cur = Vec::new();
                proof {
                    assert(split_char(post, '/') =~= parts@.map_values(|p: Vec<char>| p@).push(
                        cur@,
                    ));
                }
            } else {
                cur.push(c);
                proof {
                    let m = parts@.map_values(|p: Vec<char>| p@).push(cur@);
                    assert(split_char(post, '/') =~= m);
                }
            }
            i = i + 1;
        }
        parts.push(cur);
        proof {
            assert(chars@.subrange(0, chars@.len() as int) =~= chars@);
            assert(parts@.map_values(|p: Vec<char>| p@) =~= split_char(chars@, '/'));
        }
        // Apply each part to a copy of this path.
        let mut out = self.duplicate();
        let mut k: usize = 0;
        while k < parts.len()
            invariant
                k <= parts.len(),
                out@ == apply_segs(self@, parts@.map_values(|p: Vec<char>| p@).subrange(
                    0,
                    k as int,
                )),
            decreases parts.len() - k,
        {
            let ghost all = parts@.map_values(|p: Vec<char>| p@);
            let ghost pre = all.subrange(0, k as int);
            let ghost post = all.subrange(0, k as int + 1);
            proof {
                assert(post.drop_last() =~= pre);
            }
            let part = &parts[k];
            let is_dotdot = part.len() == 2 && part[0] == '.' && part[1] == '.';
            let is_skip = part.len() == 0 || (part.len() == 1 && part[0] == '.');
            proof {
                if is_dotdot {
                    assert(part@ =~= seq!['.', '.']);
                }
                if part.len() == 1 && part[0] == '.' {
                    assert(part@ =~= seq!['.']);
                }
                if part@ == seq!['.', '.'] {
                    assert(part@.len() == 2 && part@[0] == '.' && part@[1] == '.');
                }
                if part@ == seq!['.'] {
                    assert(part@.len() == 1 && part@[0] == '.');
                }
            }
            if is_dotdot {
                if out.segments.len() > 0 {
                    let ghost before = out@;
                    out.segments.pop();
                    proof {
                        assert(out@ =~= before.drop_last());
                    }
                }
            } else if is_skip {
                // unchanged
            } else {
                let s = chars_to_string(part);
                out.segments.push(s);
            }
            proof {
                assert(out@ =~= apply_seg(apply_segs(self@, pre), post.last()));
            }
            k = k + 1;
        }
        proof {
            assert(parts@.map_values(|p: Vec<char>| p@).subrange(
                0,
                parts@.len() as int,
            ) =~= split_char(chars@, '/'));
        }
        out
    }

    /// The last segment's stem: the part before its final dot, except
    /// that a name whose only dot leads it is returned whole.
    pub fn file_stem(&self) -> (r: Option<String>)
        ensures
            match r {
                Some(s) => self@.len() > 0 && s@ == g_stem(self@.last()),
                None => self@.len() == 0,
            },
    {
        let name = match self.last_segment() {
            Some(n) => n,
            None => {
                return None;
            },
        };
        let chars = str_chars(name.as_str());
        let ghost nm = name@;
        let mut j: usize = chars.len();
        proof {
            assert(nm.subrange(0, nm.len() as int) =~= nm);
        }
        while j > 1
            invariant
                j <= chars.len(),
                chars@ == nm,
                self@.len() > 0,
                nm == self@.last(),
                g_stem_end(nm) == g_stem_end(nm.subrange(0, j as int)),
            decreases j,
        {
            let ghost cur = nm.subrange(0, j as int);
            proof {
                assert(cur.drop_last() =~= nm.subrange(0, j - 1));
                assert(cur.last() == nm[j - 1]);
            }
            if chars[j - 1] == '.' {
                proof {
                    assert(g_stem_end(cur) == j - 1);
                }
                let stem = crate::text::slice_chars(&chars, 0, j - 1);
                return Some(crate::text::chars_to_string(&stem));
            }
            j = j - 1;
        }
        proof {
            assert(nm.subrange(0, j as int).len() <= 1);
        }
        Some(name.clone())
    }

    /// The last segment's extension: the part after its final dot, with
    /// the same leading-dot exception as `file_stem`.
    pub fn extension(&self) -> (r: Option<String>)
        ensures
            match r {
                Some(s) => self@.len() > 0 && g_stem_end(self@.last()) >= 0 && s@
                    == self@.last().subrange(g_stem_end(self@.last()) + 1, self@.last().len() as int),
                None => self@.len() == 0 || g_stem_end(self@.last()) < 0,
            },
    {
        let name = match self.last_segment() {
            Some(n) => n,
            None => {
                return None;
            },
        };
        let chars = str_chars(name.as_str());
        let ghost nm = name@;
        let mut j: usize = chars.len();
        proof {
            assert(nm.subrange(0, nm.len() as int) =~= nm);
        }
        while j > 1
            invariant
                j <= chars.len(),
                chars@ == nm,
                self@.len() > 0,
                nm == self@.last(),
                g_stem_end(nm) == g_stem_end(nm.subrange(0, j as int)),
            decreases j,
        {
            let ghost cur = nm.subrange(0, j as int);
            proof {
                assert(cur.drop_last() =~= nm.subrange(0, j - 1));
                assert(cur.last() == nm[j - 1]);
            }
            if chars[j - 1] == '.' {
                proof {
                    assert(g_stem_end(cur) == j - 1);
                }
                let ext = crate::text::slice_chars(&chars, j, chars.len());
                return Some(crate::text::chars_to_string(&ext));
            }
            j = j - 1;
        }
        proof {
            assert(nm.subrange(0, j as int).len() <= 1);
        }
        None
    }

    /// Whether the last segment's extension equals `ext`.
    pub fn has_extension(&self, ext: &str) -> (r: bool)
        ensures
            r == (self@.len() > 0 && g_ext(self@.last()) == Some(ext@)),
    {
        match self.extension() {
            Some(e) => str_eq(e.as_str(), ext),
            None => false,
        }
    }

    /// The segments joined with `/`, without a leading slash.
    pub fn to_string_rel(&self) -> (r: String)
        ensures
            r@ == joined(self@, '/'),
    {
        let mut out: Vec<char> = Vec::new();
        let mut i: usize = 0;
        while i < self.segments.len()
            invariant
                i <= self.segments.len(),
                out@ == joined(self@.subrange(0, i as int), '/'),
            decreases self.segments.len() - i,
        {
            let ghost pre = self@.subrange(0, i as int);
            let ghost post = self@.subrange(0, i as int + 1);
            proof {
                assert(post.drop_last() =~= pre);
            }
            if i > 0 {
                out.push('/');
            }
            let seg = str_chars(self.segments[i].as_str());
            let mut j: usize = 0;
            let ghost base = out@;
            while j < seg.len()
                invariant
                    j <= seg.len(),
                    out@ == base + seg@.subrange(0, j as int),
                decreases seg.len() - j,
            {
                out.push(seg[j]);
                j = j + 1;
                proof {
                    assert(base + seg@.subrange(0, j as int) =~= (base + seg@.subrange(
                        0,
                        j - 1,
                    )).push(seg@[j - 1]));
                }
            }
            proof {
                assert(seg@.subrange(0, seg@.len() as int) =~= seg@);
                if i == 0 {
                    assert(out@ =~= joined(post, '/'));
                } else {
                    assert(out@ =~= joined(pre, '/') + seq!['/'] + post.last());
                    assert(out@ =~= joined(post, '/'));
                }
            }
            i = i + 1;
        }
        proof {
            assert(self@.subrange(0, self@.len() as int) =~= self@);
        }
        chars_to_string(&out)
    }

    /// Display form: `/` followed by the segments joined with `/`.
    pub fn to_string_abs(&self) -> (r: String)
        ensures
            r@ == abs_display(self@),
    {
        let rest = self.to_string_rel();
        let mut out: Vec<char> = Vec::new();
        out.push('/');
        let tail = str_chars(rest.as_str());
        let mut i: usize = 0;
        while i < tail.len()
            invariant
                i <= tail.len(),
                out@ == seq!['/'] + tail@.subrange(0, i as int),
            decreases tail.len() - i,
        {
            out.push(tail[i]);
            i = i + 1;
            proof {
                assert(seq!['/'] + tail@.subrange(0, i as int) =~= (seq!['/'] + tail@.subrange(
                    0,
                    i - 1,
                )).push(tail@[i - 1]));
            }
        }
        proof {
            assert(tail@.subrange(0, tail@.len() as int) =~= tail@);
            assert(out@ =~= abs_display(self@));
        }
        chars_to_string(&out)
    }
}

} // verus!
