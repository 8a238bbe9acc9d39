use vstd::prelude::*;
use crate::event::mimes_view;
use crate::path::Path;

verus! {

/// The first cache index holding the given path as its key.
pub open spec fn key_index(c: Seq<(Seq<Seq<char>>, Seq<char>)>, k: Seq<Seq<char>>) -> Option<int>
    decreases c.len(),
{
    if c.len() == 0 {
        None
    } else if c[0].0 == k {
        Some(0)
    } else {
        match key_index(c.skip(1), k) {
            Some(i) => Some(i + 1),
            None => None::<int>,
        }
    }
}

/// `key_index` yields the least matching index, exactly when the cache holds
/// the key.
pub proof fn lemma_key_index(c: Seq<(Seq<Seq<char>>, Seq<char>)>, k: Seq<Seq<char>>)
    ensures
        match key_index(c, k) {
            Some(i) => 0 <= i < c.len() && c[i].0 == k && (forall|j: int|
                0 <= j < i ==> c[j].0 != k),
            None => forall|j: int| 0 <= j < c.len() ==> c[j].0 != k,
        },
    decreases c.len(),
{
    if c.len() == 0 {
    } else if c[0].0 == k {
    } else {
        lemma_key_index(c.skip(1), k);
        assert(forall|j: int| 1 <= j < c.len() ==> c[j] == c.skip(1)[j - 1]);
    }
}

/// The cached mimetype of a path, if any.
pub open spec fn mime_of(c: Seq<(Seq<Seq<char>>, Seq<char>)>, k: Seq<Seq<char>>) -> Option<
    Seq<char>,
> {
    match key_index(c, k) {
        Some(i) => Some(c[i].1),
        None => None,
    }
}

/// A cache maps each path to at most one mimetype.
pub open spec fn cache_wf(c: Seq<(Seq<Seq<char>>, Seq<char>)>) -> bool {
    forall|i: int, j: int| 0 <= i < j < c.len() ==> (#[trigger] c[i]).0 != (#[trigger] c[j]).0
}

/// One insertion: an existing key's value is replaced in place, a new key is
/// appended.
pub open spec fn cache_insert(
    c: Seq<(Seq<Seq<char>>, Seq<char>)>,
    kv: (Seq<Seq<char>>, Seq<char>),
) -> Seq<(Seq<Seq<char>>, Seq<char>)> {
    match key_index(c, kv.0) {
        Some(i) => c.update(i, kv),
        None => c.push(kv),
    }
}

/// All the insertions of `adds`, oldest first.
pub open spec fn cache_extend(
    c: Seq<(Seq<Seq<char>>, Seq<char>)>,
    adds: Seq<(Seq<Seq<char>>, Seq<char>)>,
) -> Seq<(Seq<Seq<char>>, Seq<char>)>
    decreases adds.len(),
{
    if adds.len() == 0 {
        c
    } else {
        cache_insert(cache_extend(c, adds.drop_last()), adds.last())
    }
}

/// An insertion keeps the keys unique.
pub proof fn lemma_cache_insert_wf(
    c: Seq<(Seq<Seq<char>>, Seq<char>)>,
    kv: (Seq<Seq<char>>, Seq<char>),
)
    requires
        cache_wf(c),
    ensures
        cache_wf(cache_insert(c, kv)),
{
    lemma_key_index(c, kv.0);
}

/// A run of insertions keeps the keys unique.
pub proof fn lemma_cache_extend_wf(
    c: Seq<(Seq<Seq<char>>, Seq<char>)>,
    adds: Seq<(Seq<Seq<char>>, Seq<char>)>,
)
    requires
        cache_wf(c),
    ensures
        cache_wf(cache_extend(c, adds)),
    decreases adds.len(),
{
    if adds.len() > 0 {
        lemma_cache_extend_wf(c, adds.drop_last());
        lemma_cache_insert_wf(cache_extend(c, adds.drop_last()), adds.last());
    }
}

/// The pairs of `adds` whose path is not yet cached with that very value, in
/// order. Only these are merged and announced; the rest are already known.
pub open spec fn changed_of(
    c: Seq<(Seq<Seq<char>>, Seq<char>)>,
    adds: Seq<(Seq<Seq<char>>, Seq<char>)>,
) -> Seq<(Seq<Seq<char>>, Seq<char>)>
    decreases adds.len(),
{
    if adds.len() == 0 {
        Seq::empty()
    } else {
        let pre = changed_of(c, adds.drop_last());
        if mime_of(c, adds.last().0) == Some(adds.last().1) {
            pre
        } else {
            pre.push(adds.last())
        }
    }
}

/// The paths of `ps` that the cache does not know yet, in order.
pub open spec fn missing_of(
    c: Seq<(Seq<Seq<char>>, Seq<char>)>,
    ps: Seq<Seq<Seq<char>>>,
) -> Seq<Seq<Seq<char>>>
    decreases ps.len(),
{
    if ps.len() == 0 {
        Seq::empty()
    } else {
        let pre = missing_of(c, ps.drop_last());
        if mime_of(c, ps.last()) is None {
            pre.push(ps.last())
        } else {
            pre
        }
    }
}

/// Inserts every pair of `adds` into the cache, oldest first.
pub fn cache_put_all(v: &mut Vec<(Path, String)>, adds: &Vec<(Path, String)>)
    ensures
        mimes_view(final(v)@) == cache_extend(mimes_view(old(v)@), mimes_view(adds@)),
{
    let mut j: usize = 0;
    proof {
        assert(mimes_view(adds@).take(0) =~= Seq::<(Seq<Seq<char>>, Seq<char>)>::empty());
    }
    while j < adds.len()
        invariant
            j <= adds@.len(),
            mimes_view(v@) == cache_extend(mimes_view(old(v)@), mimes_view(adds@).take(j as int)),
        decreases adds@.len() - j,
    {
        cache_put(v, adds[j].0.dup(), adds[j].1.clone());
        proof {
            assert(mimes_view(adds@).take(j + 1).drop_last() =~= mimes_view(adds@).take(j as int));
            assert(mimes_view(adds@).take(j + 1).last() == mimes_view(adds@)[j as int]);
        }
        j = j + 1;
    }
    proof {
        assert(mimes_view(adds@).take(adds@.len() as int) =~= mimes_view(adds@));
    }
}

/// Finds the first cache slot keyed by the given path.
pub fn mime_position(v: &Vec<(Path, String)>, p: &Path) -> (r: Option<usize>)
    ensures
        match r {
            Some(i) => key_index(mimes_view(v@), p@) == Some(i as int),
            None => key_index(mimes_view(v@), p@) is None,
        },
{
    proof {
        lemma_key_index(mimes_view(v@), p@);
    }
    let mut i: usize = 0;
    while i < v.len()
        invariant
            i <= v.len(),
            forall|j: int| 0 <= j < i ==> mimes_view(v@)[j].0 != p@,
            match key_index(mimes_view(v@), p@) {
                Some(k) => 0 <= k < v@.len() && mimes_view(v@)[k].0 == p@ && (forall|j: int|
                    0 <= j < k ==> mimes_view(v@)[j].0 != p@),
                None => forall|j: int| 0 <= j < v@.len() ==> mimes_view(v@)[j].0 != p@,
            },
        decreases v.len() - i,
    {
        if v[i].0.eq_path(p) {
            proof {
                assert(mimes_view(v@)[i as int].0 == p@);
                let k = key_index(mimes_view(v@), p@).unwrap();
                assert(!(k < i) && !(i < k));
            }
            return Some(i);
        }
        i = i + 1;
    }
    None
}

/// Looks a path up in the cache.
pub fn mime_lookup<'a>(v: &'a Vec<(Path, String)>, p: &Path) -> (r: Option<&'a String>)
    ensures
        match r {
            Some(s) => mime_of(mimes_view(v@), p@) == Some(s@),
            None => mime_of(mimes_view(v@), p@) is None,
        },
{
    proof {
        lemma_key_index(mimes_view(v@), p@);
    }
    match mime_position(v, p) {
        Some(i) => Some(&v[i].1),
        None => None,
    }
}

/// Inserts one pair into the cache.
pub fn cache_put(v: &mut Vec<(Path, String)>, p: Path, m: String)
    ensures
        mimes_view(final(v)@) == cache_insert(mimes_view(old(v)@), (p@, m@)),
{
    proof {
        lemma_key_index(mimes_view(v@), p@);
    }
    match mime_position(v, &p) {
        Some(i) => {
            v.remove(i);
            v.insert(i, (p, m));
            proof {
                assert(mimes_view(v@) =~= mimes_view(old(v)@).update(i as int, (p@, m@)));
            }
        },
        None => {
            v.push((p, m));
            proof {
                assert(mimes_view(v@) =~= mimes_view(old(v)@).push((p@, m@)));
            }
        },
    }
}

} // verus!
