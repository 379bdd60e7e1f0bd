use vstd::prelude::*;

verus! {

/// Drop empty and `.` segments; keep the rest.
pub open spec fn keep(done: Seq<Seq<char>>, piece: Seq<char>) -> Seq<Seq<char>> {
    if piece.len() == 0 || piece == seq!['.'] {
        done
    } else {
        done.push(piece)
    }
}

/// Scans a key left to right: the segments completed so far and the
/// segment being read.
pub open spec fn scan(s: Seq<char>) -> (Seq<Seq<char>>, Seq<char>)
    decreases s.len(),
{
    if s.len() == 0 {
        (seq![], seq![])
    } else {
        let (done, cur) = scan(s.drop_last());
        if s.last() == '/' {
            (keep(done, cur), seq![])
        } else {
            (done, cur.push(s.last()))
        }
    }
}

/// The segments of a key: the parts between slashes, without empty and `.`
/// parts.
pub open spec fn segments(s: Seq<char>) -> Seq<Seq<char>> {
    keep(scan(s).0, scan(s).1)
}

pub open spec fn is_absolute(s: Seq<char>) -> bool {
    s.len() > 0 && s[0] == '/'
}

pub open spec fn has_parent_ref(s: Seq<char>) -> bool {
    exists|i: int| 0 <= i < segments(s).len() && #[trigger] segments(s)[i] == seq!['.', '.']
}

/// The segments joined by single slashes.
pub open spec fn join(segs: Seq<Seq<char>>) -> Seq<char>
    decreases segs.len(),
{
    if segs.len() == 0 {
        seq![]
    } else if segs.len() == 1 {
        segs[0]
    } else {
        join(segs.drop_last()) + seq!['/'] + segs.last()
    }
}

/// The normal form of a key.
pub open spec fn normalized(s: Seq<char>) -> Seq<char> {
    join(segments(s))
}

/// Why a string is not a key.
#[derive(Clone, Copy, Debug, PartialEq, Eq)]
pub enum RemotePathError {
    /// It starts with `/`.
    NotRelative,
    /// One of its segments is `..`.
    ParentReference,
}

/// A key of the remote store: always relative, without `..`, held as its
/// segments.
#[derive(Clone, Debug, PartialEq, Eq, Hash)]
pub struct RemotePath {
    segments: Vec<String>,
}

impl View for RemotePath {
    type V = Seq<Seq<char>>;

    closed spec fn view(&self) -> Seq<Seq<char>> {
        self.segments@.map_values(|x: String| x@)
    }
}

fn is_parent_ref(seg: &str) -> (r: bool)
    ensures
        r == (seg@ == seq!['.', '.']),
{
    let n = seg.unicode_len();
    if n != 2 {
        return false;
    }
    let r = seg.get_char(0) == '.' && seg.get_char(1) == '.';
    if r {
        assert(seg@ =~= seq!['.', '.']);
    }
    r
}

impl RemotePath {
    /// Validates a key and keeps its normal form.
    pub fn new(s: &str) -> (r: Result<RemotePath, RemotePathError>)
        ensures
            match r {
                Ok(p) => !is_absolute(s@) && !has_parent_ref(s@) && p@ == segments(s@),
                Err(RemotePathError::NotRelative) => is_absolute(s@),
                Err(RemotePathError::ParentReference) => !is_absolute(s@) && has_parent_ref(s@),
            },
    {
        let n = s.unicode_len();
        if n > 0 && s.get_char(0) == '/' {
            return Err(RemotePathError::NotRelative);
        }
        let mut done: Vec<String> = Vec::new();
        let mut start: usize = 0;
        let mut i: usize = 0;
        while i < n
            invariant
                n == s@.len(),
                !is_absolute(s@),
                start <= i <= n,
                scan(s@.take(i as int)) == (
                    done@.map_values(|x: String| x@),
                    s@.subrange(start as int, i as int),
                ),
            decreases n - i,
        {
            let c = s.get_char(i);
            assert(s@.take(i + 1).drop_last() =~= s@.take(i as int));
            assert(s@.take(i + 1).last() == c);
            if c == '/' {
                let piece = s.substring_char(start, i);
                let ghost before = done@.map_values(|x: String| x@);
                if !(piece.unicode_len() == 0 || (piece.unicode_len() == 1 && piece.get_char(0)
                    == '.')) {
                    done.push(piece.to_owned());
                    assert(done@.map_values(|x: String| x@) =~= before.push(piece@));
                    assert(piece@ != seq!['.']) by {
                        if piece@.len() == 1 {
                            assert(piece@[0] != '.');
                        }
                    }
                } else {
                    proof {
                        if piece@.len() == 1 {
                            assert(piece@ =~= seq!['.']);
                        }
                    }
                }
                start = i + 1;
                assert(s@.subrange(start as int, i + 1) =~= seq![]);
            } else {
                assert(s@.subrange(start as int, i + 1) =~= s@.subrange(start as int, i as int).push(c));
            }
            i = i + 1;
        }
        assert(s@.take(n as int) =~= s@);
        let last = s.substring_char(start, n);
        if !(last.unicode_len() == 0 || (last.unicode_len() == 1 && last.get_char(0) == '.')) {
            let ghost before = done@.map_values(|x: String| x@);
            done.push(last.to_owned());
            assert(done@.map_values(|x: String| x@) =~= before.push(last@));
            assert(last@ != seq!['.']) by {
                if last@.len() == 1 {
                    assert(last@[0] != '.');
                }
            }
        } else {
            proof {
                if last@.len() == 1 {
                    assert(last@ =~= seq!['.']);
                }
            }
        }
        let ghost segs = done@.map_values(|x: String| x@);
        assert(segs == segments(s@));
        let mut k: usize = 0;
        while k < done.len()
            invariant
                k <= done@.len(),
                segs == done@.map_values(|x: String| x@),
                segs == segments(s@),
                !is_absolute(s@),
                forall|j: int| 0 <= j < k ==> #[trigger] segs[j] != seq!['.', '.'],
            decreases done@.len() - k,
        {
            assert(segs[k as int] == done@[k as int]@);
            if is_parent_ref(done[k].as_str()) {
                assert(segments(s@)[k as int] == seq!['.', '.']);
                assert(has_parent_ref(s@));
                return Err(RemotePathError::ParentReference);
            }
            k = k + 1;
        }
        Ok(RemotePath { segments: done })
    }

    /// The key's text: its segments joined by single slashes.
    pub fn to_string(&self) -> (r: String)
        ensures
            r@ == join(self@),
    {
        let ghost segs = self@;
        let mut out = String::new();
        let mut k: usize = 0;
        while k < self.segments.len()
            invariant
                k <= segs.len(),
                segs == self.segments@.map_values(|x: String| x@),
                out@ == join(segs.take(k as int)),
            decreases segs.len() - k,
        {
            if k > 0 {
                proof {
                    reveal_strlit("/");
                }
                out.append("/");
            }
            out.append(self.segments[k].as_str());
            assert(segs.take(k + 1).drop_last() =~= segs.take(k as int));
            assert(out@ =~= join(segs.take(k + 1)));
            k = k + 1;
        }
        assert(segs.take(segs.len() as int) =~= segs);
        out
    }

    /// The key's segments.
    pub fn segments(&self) -> (r: &Vec<String>)
        ensures
            r@.map_values(|x: String| x@) == self@,
    {
        &self.segments
    }
}

/// A segment as `segments` yields it: not empty, not `.`, without `/`.
pub open spec fn good_segment(seg: Seq<char>) -> bool {
    seg.len() > 0 && seg != seq!['.'] && !seg.contains('/')
}

proof fn lemma_scan_append(a: Seq<char>, b: Seq<char>)
    requires
        !b.contains('/'),
    ensures
        scan(a + b) == (scan(a).0, scan(a).1 + b),
    decreases b.len(),
{
    if b.len() == 0 {
        assert(a + b =~= a);
        assert(scan(a).1 + b =~= scan(a).1);
    } else {
        let bl = b.drop_last();
        assert((a + b).drop_last() =~= a + bl);
        assert((a + b).last() == b.last());
        assert(!bl.contains('/')) by {
            if bl.contains('/') {
                let i = choose|i: int| 0 <= i < bl.len() && bl[i] == '/';
                assert(b[i] == '/');
            }
        }
        assert(b.last() != '/') by {
            assert(b[b.len() - 1] == b.last());
        }
        lemma_scan_append(a, bl);
        assert((scan(a).1 + bl).push(b.last()) =~= scan(a).1 + b);
    }
}

proof fn lemma_scan_good(s: Seq<char>)
    ensures
        forall|i: int| 0 <= i < scan(s).0.len() ==> good_segment(#[trigger] scan(s).0[i]),
        !scan(s).1.contains('/'),
        forall|i: int| 0 <= i < segments(s).len() ==> good_segment(#[trigger] segments(s)[i]),
    decreases s.len(),
{
    if s.len() > 0 {
        lemma_scan_good(s.drop_last());
        let (d, c) = scan(s.drop_last());
        if s.last() != '/' {
            assert(!c.push(s.last()).contains('/')) by {
                if c.push(s.last()).contains('/') {
                    let i = choose|i: int| 0 <= i < c.push(s.last()).len() && c.push(s.last())[i] == '/';
                    if i < c.len() {
                        assert(c[i] == '/');
                    }
                }
            }
        }
    }
}

proof fn lemma_scan_join(segs: Seq<Seq<char>>)
    requires
        segs.len() > 0,
        forall|i: int| 0 <= i < segs.len() ==> good_segment(#[trigger] segs[i]),
    ensures
        scan(join(segs)) == (segs.drop_last(), segs.last()),
    decreases segs.len(),
{
    if segs.len() == 1 {
        let e: Seq<char> = seq![];
        assert(e + segs[0] =~= segs[0]);
        lemma_scan_append(e, segs[0]);
        assert(scan(e) == (Seq::<Seq<char>>::empty(), e));
        assert(e + segs[0] =~= segs[0]);
        assert(segs.drop_last() =~= Seq::<Seq<char>>::empty());
    } else {
        let init = segs.drop_last();
        assert(good_segment(segs.last())) by {
            assert(segs[segs.len() - 1] == segs.last());
        }
        lemma_scan_join(init);
        let j = join(init) + seq!['/'];
        assert(j.drop_last() =~= join(init));
        assert(j.last() == '/');
        assert(good_segment(init.last())) by {
            assert(init[init.len() - 1] == init.last());
        }
        assert(init.drop_last().push(init.last()) =~= init);
        assert(scan(j) == (init, Seq::<char>::empty()));
        lemma_scan_append(j, segs.last());
        assert(Seq::<char>::empty() + segs.last() =~= segs.last());
    }
}

/// Rendering a key and validating the text again gives back the same key:
/// the normal form of a valid key is valid and has the same segments.
pub proof fn law_remote_path_round_trip(s: Seq<char>)
    requires
        !is_absolute(s),
        !has_parent_ref(s),
    ensures
        segments(normalized(s)) == segments(s),
        !is_absolute(normalized(s)),
        !has_parent_ref(normalized(s)),
{
    let segs = segments(s);
    lemma_scan_good(s);
    if segs.len() == 0 {
        let e: Seq<char> = seq![];
        assert(normalized(s) == e);
        assert(scan(e) == (Seq::<Seq<char>>::empty(), e));
        assert(segments(e) =~= segs);
    } else {
        lemma_scan_join(segs);
        assert(good_segment(segs.last())) by {
            assert(segs[segs.len() - 1] == segs.last());
        }
        assert(segs.drop_last().push(segs.last()) =~= segs);
        lemma_join_first(segs);
        assert(segs[0][0] != '/') by {
            assert(good_segment(segs[0]));
            assert(segs[0].len() > 0);
            if segs[0][0] == '/' {
                assert(segs[0].contains('/'));
            }
        }
    }
}

proof fn lemma_join_first(segs: Seq<Seq<char>>)
    requires
        segs.len() > 0,
        segs[0].len() > 0,
    ensures
        join(segs).len() > 0,
        join(segs)[0] == segs[0][0],
    decreases segs.len(),
{
    if segs.len() > 1 {
        lemma_join_first(segs.drop_last());
    }
}

} // verus!
