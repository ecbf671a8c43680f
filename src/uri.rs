//! Hierarchical actor URIs: a scheme tag and a non-empty path of segments.
use vstd::prelude::*;
use vstd::string::*;

verus! {

/// Where an actor lives. Only local actors are hosted; the remote tag is reserved.
#[derive(Clone, Copy, Debug, PartialEq, Eq, Structural, Hash)]
pub enum Scheme {
    Local,
    Remote,
}

/// The mathematical form of a URI: its scheme and its segments.
pub type UriView = (Scheme, Seq<Seq<char>>);

/// The separator between path segments.
pub open spec fn separator() -> char {
    '/'
}

/// A segment is non-empty and holds no separator.
pub open spec fn valid_segment(s: Seq<char>) -> bool {
    s.len() > 0 && !s.contains(separator())
}

/// A path is a non-empty sequence of valid segments.
pub open spec fn valid_path(segs: Seq<Seq<char>>) -> bool {
    segs.len() > 0 && forall|i: int| 0 <= i < segs.len() ==> #[trigger] valid_segment(segs[i])
}

/// The segments joined by the separator.
pub open spec fn join_path(segs: Seq<Seq<char>>) -> Seq<char>
    decreases segs.len(),
{
    if segs.len() == 0 {
        Seq::empty()
    } else if segs.len() == 1 {
        segs[0]
    } else {
        join_path(segs.drop_last()) + seq![separator()] + segs.last()
    }
}

pub open spec fn local_prefix() -> Seq<char> {
    seq!['l', 'o', 'c', 'a', 'l', ':', '/', '/']
}

pub open spec fn remote_prefix() -> Seq<char> {
    seq!['r', 'e', 'm', 'o', 't', 'e', ':', '/', '/']
}

pub open spec fn scheme_prefix(scheme: Scheme) -> Seq<char> {
    match scheme {
        Scheme::Local => local_prefix(),
        Scheme::Remote => remote_prefix(),
    }
}

/// The printable form `<scheme>://seg1/seg2/...`.
pub open spec fn display(scheme: Scheme, segs: Seq<Seq<char>>) -> Seq<char> {
    scheme_prefix(scheme) + join_path(segs)
}

/// Reading characters left to right: the segments closed so far and the one being read.
pub open spec fn split_state(s: Seq<char>) -> (Seq<Seq<char>>, Seq<char>)
    decreases s.len(),
{
    if s.len() == 0 {
        (Seq::empty(), Seq::empty())
    } else {
        let (done, cur) = split_state(s.drop_last());
        if s.last() == separator() {
            (done.push(cur), Seq::empty())
        } else {
            (done, cur.push(s.last()))
        }
    }
}

/// The pieces of `s` between separators (one more piece than separators).
pub open spec fn split_path(s: Seq<char>) -> Seq<Seq<char>> {
    split_state(s).0.push(split_state(s).1)
}

pub open spec fn all_non_empty(segs: Seq<Seq<char>>) -> bool {
    forall|i: int| 0 <= i < segs.len() ==> #[trigger] segs[i].len() > 0
}

pub open spec fn path_of(scheme: Scheme, rest: Seq<char>) -> Option<UriView> {
    if all_non_empty(split_path(rest)) {
        Some((scheme, split_path(rest)))
    } else {
        None
    }
}

/// What parsing a printable form gives: the scheme by its prefix, then the segments.
pub open spec fn parse_view(s: Seq<char>) -> Option<UriView> {
    if s.len() >= local_prefix().len() && s.take(local_prefix().len() as int) == local_prefix() {
        path_of(Scheme::Local, s.skip(local_prefix().len() as int))
    } else if s.len() >= remote_prefix().len() && s.take(remote_prefix().len() as int)
        == remote_prefix() {
        path_of(Scheme::Remote, s.skip(remote_prefix().len() as int))
    } else {
        None
    }
}

/// `parent` is the direct parent of `child`: same scheme, and `child`'s path is
/// `parent`'s path with exactly one more segment.
pub open spec fn direct_parent(parent: UriView, child: UriView) -> bool {
    &&& parent.0 == child.0
    &&& child.1.len() == parent.1.len() + 1
    &&& child.1.take(parent.1.len() as int) == parent.1
}

/// Identifies an actor within the system; the path mirrors the actor hierarchy.
#[derive(Clone, Debug, Hash)]
pub struct Uri {
    pub scheme: Scheme,
    pub path_segments: Vec<String>,
}

impl View for Uri {
    type V = UriView;

    open spec fn view(&self) -> UriView {
        (self.scheme, self.path_segments@.map_values(|s: String| s@))
    }
}

impl Uri {
    pub open spec fn wf(&self) -> bool {
        valid_path(self@.1)
    }

    /// Builds a URI from its scheme and segments.
    pub fn new(scheme: Scheme, path_segments: &[&str]) -> (r: Uri)
        requires
            valid_path(path_segments@.map_values(|s: &str| s@)),
        ensures
            r@ == (scheme, path_segments@.map_values(|s: &str| s@)),
            r.wf(),
    {
        let mut segs: Vec<String> = Vec::new();
        let mut i: usize = 0;
        while i < path_segments.len()
            invariant
                i <= path_segments@.len(),
                segs@.len() == i,
                forall|j: int| 0 <= j < i ==> #[trigger] segs@[j]@ == path_segments@[j]@,
            decreases path_segments@.len() - i,
        {
            segs.push(String::from_str(path_segments[i]));
            i = i + 1;
        }
        assert(segs@.map_values(|s: String| s@) =~= path_segments@.map_values(|s: &str| s@));
        Uri { scheme, path_segments: segs }
    }

    /// A copy with the same scheme and segments.
    pub fn duplicate(&self) -> (r: Uri)
        ensures
            r@ == self@,
    {
        let mut segs: Vec<String> = Vec::new();
        let mut i: usize = 0;
        while i < self.path_segments.len()
            invariant
                i <= self.path_segments@.len(),
                segs@.len() == i,
                forall|j: int| 0 <= j < i ==> #[trigger] segs@[j]@ == self.path_segments@[j]@,
            decreases self.path_segments@.len() - i,
        {
            segs.push(self.path_segments[i].clone());
            i = i + 1;
        }
        assert(segs@.map_values(|s: String| s@) =~= self.path_segments@.map_values(
            |s: String| s@,
        ));
        Uri { scheme: self.scheme, path_segments: segs }
    }

    /// The URI with `sub_path` appended to the path.
    pub fn new_child(&self, sub_path: &str) -> (r: Uri)
        requires
            self.wf(),
            valid_segment(sub_path@),
        ensures
            r@ == (self@.0, self@.1.push(sub_path@)),
            r.wf(),
            direct_parent(self@, r@),
    {
        let mut r = self.duplicate();
        r.path_segments.push(String::from_str(sub_path));
        assert(r@.1 =~= self@.1.push(sub_path@));
        assert(r@.1.take(self@.1.len() as int) =~= self@.1);
        r
    }

    /// True iff `self` is the direct parent of `maybe_child`.
    pub fn is_child(&self, maybe_child: &Uri) -> (r: bool)
        ensures
            r == direct_parent(self@, maybe_child@),
    {
        if self.scheme != maybe_child.scheme {
            return false;
        }
        let n = self.path_segments.len();
        if n >= maybe_child.path_segments.len() {
            return false;
        }
        if n != maybe_child.path_segments.len() - 1 {
            return false;
        }
        let mut i: usize = 0;
        while i < n
            invariant
                n == self.path_segments@.len(),
                n + 1 == maybe_child.path_segments@.len(),
                i <= n,
                forall|j: int| 0 <= j < i ==> self@.1[j] == maybe_child@.1[j],
            decreases n - i,
        {
            if self.path_segments[i] != maybe_child.path_segments[i] {
                assert(self@.1[i as int] != maybe_child@.1.take(n as int)[i as int]);
                return false;
            }
            i = i + 1;
        }
        assert(maybe_child@.1.take(n as int) =~= self@.1);
        true
    }

    /// True iff `self` is a direct child of `maybe_parent`.
    pub fn is_parent(&self, maybe_parent: &Uri) -> (r: bool)
        ensures
            r == direct_parent(maybe_parent@, self@),
    {
        maybe_parent.is_child(self)
    }

    /// The path segments joined by `/`.
    pub fn path(&self) -> (r: String)
        requires
            self.wf(),
        ensures
            r@ == join_path(self@.1),
    {
        let segs = &self.path_segments;
        let mut out = segs[0].clone();
        let mut i: usize = 1;
        assert(self@.1.take(1) =~= seq![self@.1[0]]);
        while i < segs.len()
            invariant
                1 <= i <= segs@.len(),
                segs == &self.path_segments,
                out@ == join_path(self@.1.take(i as int)),
            decreases segs@.len() - i,
        {
            out.append("/");
            out.append(segs[i].as_str());
            proof {
                reveal_strlit("/");
                assert(self@.1.take(i + 1).drop_last() =~= self@.1.take(i as int));
            }
            i = i + 1;
        }
        assert(self@.1.take(i as int) =~= self@.1);
        out
    }

    /// The printable form, e.g. `local://root/child-0`.
    pub fn to_string(&self) -> (r: String)
        requires
            self.wf(),
        ensures
            r@ == display(self@.0, self@.1),
    {
        let mut out = match self.scheme {
            Scheme::Local => {
                proof {
                    reveal_strlit("local://");
                }
                String::from_str("local://")
            },
            Scheme::Remote => {
                proof {
                    reveal_strlit("remote://");
                }
                String::from_str("remote://")
            },
        };
        let p = self.path();
        out.append(p.as_str());
        out
    }
}


impl Uri {
    /// Reads a printable form back into a URI; `None` where the scheme is unknown
    /// or a segment is empty.
    pub fn parse(s: &str) -> (r: Option<Uri>)
        ensures
            match r {
                Some(u) => parse_view(s@) == Some(u@) && u.wf(),
                None => parse_view(s@) is None,
            },
    {
        let n = s.unicode_len();
        proof {
            reveal_strlit("local://");
            reveal_strlit("remote://");
            assert("local://"@ =~= local_prefix());
            assert("remote://"@ =~= remote_prefix());
        }
        let (scheme, start) = if has_prefix(s, n, "local://") {
            (Scheme::Local, 8usize)
        } else if has_prefix(s, n, "remote://") {
            (Scheme::Remote, 9usize)
        } else {
            return None;
        };
        assert(local_prefix().len() == 8);
        assert(remote_prefix().len() == 9);
        let ghost rest = s@.skip(start as int);
        assert(parse_view(s@) == path_of(scheme, rest));
        let mut segs: Vec<String> = Vec::new();
        let mut seg_start: usize = start;
        let mut i: usize = start;
        assert(s@.subrange(start as int, start as int) =~= Seq::<char>::empty());
        while i < n
            invariant
                n == s@.len(),
                start <= seg_start <= i <= n,
                segs@.map_values(|x: String| x@) == split_state(
                    s@.subrange(start as int, i as int),
                ).0,
                s@.subrange(seg_start as int, i as int) == split_state(
                    s@.subrange(start as int, i as int),
                ).1,
            decreases n - i,
        {
            let c = s.get_char(i);
            proof {
                assert(s@.subrange(start as int, i + 1) =~= s@.subrange(start as int, i as int).push(
                    c,
                ));
                assert(s@.subrange(start as int, i + 1).drop_last() =~= s@.subrange(
                    start as int,
                    i as int,
                ));
            }
            if c == '/' {
                let piece = String::from_str(s.substring_char(seg_start, i));
                let ghost before = segs@;
                segs.push(piece);
                assert(segs@.map_values(|x: String| x@) =~= before.map_values(|x: String| x@).push(
                    piece@,
                ));
                seg_start = i + 1;
                assert(s@.subrange(seg_start as int, i + 1) =~= Seq::<char>::empty());
            } else {
                assert(s@.subrange(seg_start as int, i + 1) =~= s@.subrange(
                    seg_start as int,
                    i as int,
                ).push(c));
            }
            i = i + 1;
        }
        let last = String::from_str(s.substring_char(seg_start, n));
        let ghost before = segs@;
        segs.push(last);
        assert(segs@.map_values(|x: String| x@) =~= before.map_values(|x: String| x@).push(
            last@,
        ));
        assert(s@.subrange(start as int, n as int) =~= rest);
        assert(segs@.map_values(|x: String| x@) == split_path(rest));
        let mut k: usize = 0;
        while k < segs.len()
            invariant
                k <= segs@.len(),
                segs@.map_values(|x: String| x@) == split_path(rest),
                parse_view(s@) == path_of(scheme, rest),
                forall|j: int| 0 <= j < k ==> #[trigger] split_path(rest)[j].len() > 0,
            decreases segs@.len() - k,
        {
            if segs[k].as_str().unicode_len() == 0 {
                assert(split_path(rest)[k as int].len() == 0);
                assert(!all_non_empty(split_path(rest)));
                return None;
            }
            k = k + 1;
        }
        proof {
            lemma_split_no_separator(rest);
        }
        Some(Uri { scheme, path_segments: segs })
    }
}

/// True iff `s` holds the separator.
pub fn contains_separator(s: &str) -> (r: bool)
    ensures
        r == s@.contains(separator()),
{
    let n = s.unicode_len();
    let mut i: usize = 0;
    while i < n
        invariant
            n == s@.len(),
            i <= n,
            forall|j: int| 0 <= j < i ==> s@[j] != separator(),
        decreases n - i,
    {
        if s.get_char(i) == '/' {
            return true;
        }
        i = i + 1;
    }
    false
}

/// True iff `s` can be a path segment: non-empty and free of separators.
pub fn is_valid_segment(s: &str) -> (r: bool)
    ensures
        r == valid_segment(s@),
{
    s.unicode_len() > 0 && !contains_separator(s)
}

/// True iff the first characters of `s` (of length `n`) are those of `p`.
fn has_prefix(s: &str, n: usize, p: &str) -> (r: bool)
    requires
        n == s@.len(),
    ensures
        r == (s@.len() >= p@.len() && s@.take(p@.len() as int) == p@),
{
    let m = p.unicode_len();
    if m > n {
        return false;
    }
    let mut i: usize = 0;
    while i < m
        invariant
            m == p@.len(),
            m <= n,
            n == s@.len(),
            i <= m,
            forall|j: int| 0 <= j < i ==> s@[j] == p@[j],
        decreases m - i,
    {
        if s.get_char(i) != p.get_char(i) {
            assert(s@.take(m as int)[i as int] != p@[i as int]);
            return false;
        }
        i = i + 1;
    }
    assert(s@.take(m as int) =~= p@);
    true
}

impl PartialEq for Uri {
    fn eq(&self, other: &Uri) -> (r: bool)
        ensures
            r == (self@ == other@),
    {
        if self.scheme != other.scheme {
            return false;
        }
        if self.path_segments.len() != other.path_segments.len() {
            assert(self@.1.len() != other@.1.len());
            return false;
        }
        let mut i: usize = 0;
        while i < self.path_segments.len()
            invariant
                self.path_segments@.len() == other.path_segments@.len(),
                i <= self.path_segments@.len(),
                forall|j: int| 0 <= j < i ==> self@.1[j] == other@.1[j],
            decreases self.path_segments@.len() - i,
        {
            if self.path_segments[i] != other.path_segments[i] {
                assert(self@.1[i as int] == self.path_segments@[i as int]@);
                assert(other@.1[i as int] == other.path_segments@[i as int]@);
                return false;
            }
            i = i + 1;
        }
        assert(self@.1 =~= other@.1);
        true
    }
}

impl vstd::std_specs::cmp::PartialEqSpecImpl for Uri {
    open spec fn obeys_eq_spec() -> bool {
        true
    }

    open spec fn eq_spec(&self, other: &Uri) -> bool {
        self@ == other@
    }
}

impl Eq for Uri {

}

/// No piece of a split contains the separator.
pub proof fn lemma_split_no_separator(s: Seq<char>)
    ensures
        forall|i: int|
            0 <= i < split_path(s).len() ==> !(#[trigger] split_path(s)[i]).contains(separator()),
    decreases s.len(),
{
    if s.len() > 0 {
        lemma_split_no_separator(s.drop_last());
        let (done, cur) = split_state(s.drop_last());
        assert(forall|i: int| 0 <= i < done.len() ==> split_path(s.drop_last())[i] == done[i]);
        assert(split_path(s.drop_last())[done.len() as int] == cur);
        if s.last() != separator() {
            assert forall|i: int| 0 <= i < split_path(s).len() implies !(
            #[trigger] split_path(s)[i]).contains(separator()) by {
                if i == done.len() {
                    if cur.push(s.last()).contains(separator()) {
                        let k = choose|k: int|
                            0 <= k < cur.push(s.last()).len() && cur.push(s.last())[k]
                                == separator();
                        assert(cur[k] == separator());
                    }
                }
            }
        } else {
            assert(split_path(s) =~= split_path(s.drop_last()).push(Seq::empty()));
        }
    }
}

/// Reading characters free of separators only extends the piece being read.
proof fn lemma_split_extend(p: Seq<char>, t: Seq<char>)
    requires
        !t.contains(separator()),
    ensures
        split_state(p + t) == (split_state(p).0, split_state(p).1 + t),
    decreases t.len(),
{
    if t.len() == 0 {
        assert(p + t =~= p);
        assert(split_state(p).1 + t =~= split_state(p).1);
    } else {
        assert((p + t).drop_last() =~= p + t.drop_last());
        assert(!t.drop_last().contains(separator())) by {
            if t.drop_last().contains(separator()) {
                let k = choose|k: int| 0 <= k < t.drop_last().len() && t.drop_last()[k] == separator();
                assert(t[k] == separator());
            }
        }
        lemma_split_extend(p, t.drop_last());
        assert((p + t).last() == t.last());
        assert(t.last() != separator()) by {
            assert(t[t.len() - 1] == t.last());
        }
        assert((split_state(p).1 + t.drop_last()).push(t.last()) =~= split_state(p).1 + t);
    }
}

/// Splitting a joined path gives the segments back.
proof fn lemma_split_join(segs: Seq<Seq<char>>)
    requires
        valid_path(segs),
    ensures
        split_state(join_path(segs)) == (segs.drop_last(), segs.last()),
    decreases segs.len(),
{
    assert(valid_segment(segs[segs.len() - 1]));
    if segs.len() == 1 {
        lemma_split_extend(Seq::empty(), segs[0]);
        assert(Seq::<char>::empty() + segs[0] =~= segs[0]);
        assert(segs.drop_last() =~= Seq::empty());
    } else {
        let init = segs.drop_last();
        assert(valid_path(init)) by {
            assert forall|i: int| 0 <= i < init.len() implies #[trigger] valid_segment(init[i]) by {
                assert(valid_segment(segs[i]));
            }
        }
        lemma_split_join(init);
        let j = join_path(init) + seq![separator()];
        assert(j.drop_last() =~= join_path(init));
        assert(split_state(j) == (init.drop_last().push(init.last()), Seq::<char>::empty()));
        assert(init.drop_last().push(init.last()) =~= init);
        lemma_split_extend(j, segs.last());
        assert(Seq::<char>::empty() + segs.last() =~= segs.last());
    }
}

/// Parsing the printable form of a well-formed URI gives that URI back.
pub proof fn lemma_uri_round_trip(u: &Uri)
    requires
        u.wf(),
    ensures
        parse_view(display(u@.0, u@.1)) == Some(u@),
{
    let segs = u@.1;
    lemma_split_join(segs);
    assert(split_path(join_path(segs)) =~= segs);
    assert(all_non_empty(segs)) by {
        assert forall|i: int| 0 <= i < segs.len() implies #[trigger] segs[i].len() > 0 by {
            assert(valid_segment(segs[i]));
        }
    }
    let d = display(u@.0, segs);
    match u@.0 {
        Scheme::Local => {
            assert(d.take(8) =~= local_prefix());
            assert(d.skip(8) =~= join_path(segs));
        },
        Scheme::Remote => {
            assert(d.take(8)[0] != local_prefix()[0]);
            assert(d.take(9) =~= remote_prefix());
            assert(d.skip(9) =~= join_path(segs));
        },
    }
}

/// No URI is its own direct parent.
pub proof fn lemma_direct_parent_irreflexive(a: UriView)
    ensures
        !direct_parent(a, a),
{
}

/// Two URIs are never each other's direct parent.
pub proof fn lemma_direct_parent_antisymmetric(a: UriView, b: UriView)
    ensures
        direct_parent(a, b) ==> !direct_parent(b, a),
{
}

} // verus!
