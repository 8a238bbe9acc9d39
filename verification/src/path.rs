use vstd::prelude::*;

verus! {

/// An absolute filesystem path, held as the sequence of its components from
/// the root downward. The root itself has no components. A component is a
/// sequence of characters; separators are never stored.
pub struct Path {
    pub comps: Vec<Vec<char>>,
}

/// The abstract value of a list of components: a sequence of character
/// sequences.
pub open spec fn comps_view(v: Seq<Vec<char>>) -> Seq<Seq<char>> {
    Seq::new(v.len(), |i: int| v[i]@)
}

impl View for Path {
    type V = Seq<Seq<char>>;

    open spec fn view(&self) -> Seq<Seq<char>> {
        comps_view(self.comps@)
    }
}

/// Splits a character sequence on `/`, dropping empty runs, with `cur` the
/// partial component read so far. `split_segs` is the entry point.
pub open spec fn split_acc(cur: Seq<char>, s: Seq<char>) -> Seq<Seq<char>>
    decreases s.len(),
{
    if s.len() == 0 {
        if cur.len() == 0 {
            Seq::empty()
        } else {
            seq![cur]
        }
    } else if s[0] == '/' {
        let head: Seq<Seq<char>> = if cur.len() == 0 {
            Seq::empty()
        } else {
            seq![cur]
        };
        head + split_acc(Seq::empty(), s.skip(1))
    } else {
        split_acc(cur.push(s[0]), s.skip(1))
    }
}

/// The components of a path string: the maximal non-empty runs of characters
/// between `/` separators, in order.
pub open spec fn split_segs(s: Seq<char>) -> Seq<Seq<char>> {
    split_acc(Seq::empty(), s)
}

/// Splits a name on `/` into its non-empty components.
pub fn split_name(s: &str) -> (r: Vec<Vec<char>>)
    ensures
        comps_view(r@) == split_segs(s@),
{
    let n: usize = s.unicode_len();
    let mut segs: Vec<Vec<char>> = Vec::new();
    let mut cur: Vec<char> = Vec::new();
    let mut i: usize = 0;
    proof {
        assert(s@.skip(0) =~= s@);
        assert(comps_view(segs@) + split_acc(cur@, s@) =~= split_acc(cur@, s@));
    }
    while i < n
        invariant
            n == s@.len(),
            i <= n,
            split_segs(s@) == comps_view(segs@) + split_acc(cur@, s@.skip(i as int)),
        decreases n - i,
    {
        let c = s.get_char(i);
        let ghost rest = s@.skip(i as int);
        proof {
            assert(rest[0] == s@[i as int]);
            assert(rest.skip(1) =~= s@.skip(i + 1));
        }
        if c == '/' {
            if cur.len() > 0 {
                let ghost old_segs = segs@;
                let ghost old_cur = cur@;
                segs.push(cur);
                cur = Vec::new();
                proof {
                    assert(cur@ =~= Seq::<char>::empty());
                    assert(split_acc(old_cur, rest) == seq![old_cur] + split_acc(Seq::empty(), s@.skip(i + 1)));
                    assert(comps_view(segs@) =~= comps_view(old_segs).push(old_cur));
                    assert(comps_view(segs@) + split_acc(cur@, s@.skip(i + 1)) =~= split_segs(s@));
                }
            } else {
                proof {
                    assert(cur@ =~= Seq::<char>::empty());
                    assert(split_acc(cur@, rest) == Seq::<Seq<char>>::empty() + split_acc(
                        Seq::empty(),
                        s@.skip(i + 1),
                    ));
                    assert(Seq::<Seq<char>>::empty() + split_acc(Seq::empty(), s@.skip(i + 1))
                        =~= split_acc(Seq::empty(), s@.skip(i + 1)));
                    assert(split_acc(cur@, s@.skip(i + 1)) == split_acc(Seq::empty(), s@.skip(i + 1)));
                }
            }
        } else {
            let ghost old_cur = cur@;
            cur.push(c);
            proof {
                assert(split_acc(old_cur, rest) == split_acc(old_cur.push(c), rest.skip(1)));
                assert(cur@ == old_cur.push(c));
            }
        }
        i = i + 1;
    }
    proof {
        assert(s@.skip(n as int) =~= Seq::<char>::empty());
    }
    if cur.len() > 0 {
        let ghost old_segs = segs@;
        segs.push(cur);
        proof {
            assert(comps_view(segs@) =~= comps_view(old_segs).push(segs@[old_segs.len() as int]@));
        }
    }
    proof {
        assert(comps_view(segs@) =~= split_segs(s@));
    }
    segs
}

/// The abstract value of a list of paths.
pub open spec fn paths_view(v: Seq<Path>) -> Seq<Seq<Seq<char>>> {
    Seq::new(v.len(), |i: int| v[i]@)
}

/// An independent copy of a list of paths.
pub fn dup_paths(v: &Vec<Path>) -> (r: Vec<Path>)
    ensures
        paths_view(r@) == paths_view(v@),
{
    let mut r: Vec<Path> = Vec::new();
    let mut i: usize = 0;
    while i < v.len()
        invariant
            i <= v.len(),
            r@.len() == i,
            forall|j: int| 0 <= j < i ==> r@[j]@ == v@[j]@,
        decreases v.len() - i,
    {
        r.push(v[i].dup());
        i = i + 1;
    }
    proof {
        assert(paths_view(r@) =~= paths_view(v@));
    }
    r
}

/// Whether the name's final character is the path separator.
pub fn ends_with_sep(s: &str) -> (r: bool)
    ensures
        r == (s@.len() > 0 && s@.last() == '/'),
{
    let n: usize = s.unicode_len();
    n > 0 && s.get_char(n - 1) == '/'
}

/// Compares two components character by character.
fn comp_eq(a: &Vec<char>, b: &Vec<char>) -> (r: bool)
    ensures
        r == (a@ == b@),
{
    if a.len() != b.len() {
        proof {
            assert(a@ != b@);
        }
        return false;
    }
    let mut i: usize = 0;
    while i < a.len()
        invariant
            i <= a.len(),
            a.len() == b.len(),
            forall|j: int| 0 <= j < i ==> a@[j] == b@[j],
        decreases a.len() - i,
    {
        if a[i] != b[i] {
            proof {
                assert(a@ != b@);
            }
            return false;
        }
        i = i + 1;
    }
    proof {
        assert(a@ =~= b@);
    }
    true
}

impl Path {
    /// The path of the filesystem root.
    pub fn root() -> (r: Path)
        ensures
            r@ == Seq::<Seq<char>>::empty(),
    {
        let r = Path { comps: Vec::new() };
        proof {
            assert(r@ =~= Seq::<Seq<char>>::empty());
        }
        r
    }

    /// Reads a path out of a string, one component per non-empty run between
    /// separators.
    pub fn parse(s: &str) -> (r: Path)
        ensures
            r@ == split_segs(s@),
    {
        Path { comps: split_name(s) }
    }

    /// An independent copy with the same components.
    pub fn dup(&self) -> (r: Path)
        ensures
            r@ == self@,
    {
        let mut comps: Vec<Vec<char>> = Vec::new();
        let mut i: usize = 0;
        while i < self.comps.len()
            invariant
                i <= self.comps.len(),
                comps@.len() == i,
                forall|j: int| 0 <= j < i ==> comps@[j]@ == self.comps@[j]@,
            decreases self.comps.len() - i,
        {
            let mut c: Vec<char> = Vec::new();
            let src = &self.comps[i];
            let mut k: usize = 0;
            while k < src.len()
                invariant
                    k <= src.len(),
                    c@ == src@.take(k as int),
                decreases src.len() - k,
            {
                c.push(src[k]);
                proof {
                    assert(c@ =~= src@.take(k + 1));
                }
                k = k + 1;
            }
            proof {
                assert(c@ =~= src@);
            }
            comps.push(c);
            i = i + 1;
        }
        let r = Path { comps };
        proof {
            assert(r@ =~= self@);
        }
        r
    }

    /// Whether two paths have the same components.
    pub fn eq_path(&self, other: &Path) -> (r: bool)
        ensures
            r == (self@ == other@),
    {
        if self.comps.len() != other.comps.len() {
            proof {
                assert(self@.len() != other@.len());
            }
            return false;
        }
        let mut i: usize = 0;
        while i < self.comps.len()
            invariant
                i <= self.comps.len(),
                self.comps@.len() == other.comps@.len(),
                forall|j: int| 0 <= j < i ==> self@[j] == other@[j],
            decreases self.comps.len() - i,
        {
            if !comp_eq(&self.comps[i], &other.comps[i]) {
                proof {
                    assert(self@[i as int] != other@[i as int]);
                }
                return false;
            }
            i = i + 1;
        }
        proof {
            assert(self@ =~= other@);
        }
        true
    }

    /// The path one level up: all components but the last. The root has no
    /// parent.
    pub fn parent(&self) -> (r: Option<Path>)
        ensures
            self@.len() == 0 ==> r is None,
            self@.len() > 0 ==> (r matches Some(p) && p@ == self@.drop_last()),
    {
        if self.comps.len() == 0 {
            return None;
        }
        let mut p = self.dup();
        p.comps.pop();
        proof {
            assert(p@ =~= self@.drop_last());
        }
        Some(p)
    }

    /// This path extended by the given components.
    pub fn joined(&self, segs: &Vec<Vec<char>>) -> (r: Path)
        ensures
            r@ == self@ + comps_view(segs@),
    {
        let mut r = self.dup();
        proof {
            assert(forall|j: int| 0 <= j < self@.len() ==> r@[j] == r.comps@[j]@);
        }
        let mut i: usize = 0;
        while i < segs.len()
            invariant
                i <= segs.len(),
                r.comps@.len() == self@.len() + i,
                forall|j: int| 0 <= j < self@.len() ==> r.comps@[j]@ == self@[j],
                forall|j: int| 0 <= j < i ==> r.comps@[self@.len() + j]@ == segs@[j]@,
            decreases segs.len() - i,
        {
            let mut c: Vec<char> = Vec::new();
            let src = &segs[i];
            let mut k: usize = 0;
            while k < src.len()
                invariant
                    k <= src.len(),
                    c@ == src@.take(k as int),
                decreases src.len() - k,
            {
                c.push(src[k]);
                proof {
                    assert(c@ =~= src@.take(k + 1));
                }
                k = k + 1;
            }
            proof {
                assert(c@ =~= src@);
            }
            r.comps.push(c);
            i = i + 1;
        }
        proof {
            assert(r@ =~= self@ + comps_view(segs@));
        }
        r
    }
}

} // verus!
