//! An in-memory environment snapshot: the ordered log of writes the loader
//! makes, viewed abstractly as the key/value map those writes produce.

use vstd::prelude::*;

verus! {

/// The map that results from performing the writes `ps`, in order, on top of
/// `m`: each pair overwrites any earlier value for its key.
pub open spec fn apply_pairs_spec(
    m: Map<Seq<char>, Seq<char>>,
    ps: Seq<(Seq<char>, Seq<char>)>,
) -> Map<Seq<char>, Seq<char>>
    decreases ps.len(),
{
    if ps.len() == 0 {
        m
    } else {
        apply_pairs_spec(m.insert(ps[0].0, ps[0].1), ps.drop_first())
    }
}

/// The value of the last write in `ps` whose key is `k`, if there is one.
pub open spec fn last_value(ps: Seq<(Seq<char>, Seq<char>)>, k: Seq<char>) -> Option<Seq<char>>
    decreases ps.len(),
{
    if ps.len() == 0 {
        None
    } else {
        match last_value(ps.drop_first(), k) {
            Some(v) => Some(v),
            None => if ps[0].0 == k {
                Some(ps[0].1)
            } else {
                None
            },
        }
    }
}

/// Performing the writes `ps` on top of `m` gives each key the value of the
/// last write for it; a key without a write keeps its standing in `m`.
pub proof fn lemma_apply_pairs_last(
    m: Map<Seq<char>, Seq<char>>,
    ps: Seq<(Seq<char>, Seq<char>)>,
    k: Seq<char>,
)
    ensures
        apply_pairs_spec(m, ps).contains_key(k) <==> (m.contains_key(k) || last_value(ps, k) is Some),
        last_value(ps, k) matches Some(v) ==> apply_pairs_spec(m, ps)[k] == v,
        last_value(ps, k) is None && m.contains_key(k) ==> apply_pairs_spec(m, ps)[k] == m[k],
    decreases ps.len(),
{
    if ps.len() > 0 {
        lemma_apply_pairs_last(m.insert(ps[0].0, ps[0].1), ps.drop_first(), k);
    }
}

/// A write appended to the log inserts its pair into the resulting map.
pub proof fn lemma_apply_pairs_push(
    m: Map<Seq<char>, Seq<char>>,
    ps: Seq<(Seq<char>, Seq<char>)>,
    p: (Seq<char>, Seq<char>),
)
    ensures
        apply_pairs_spec(m, ps.push(p)) == apply_pairs_spec(m, ps).insert(p.0, p.1),
    decreases ps.len(),
{
    if ps.len() == 0 {
        assert(ps.push(p)[0] == p);
        assert(ps.push(p).drop_first() =~= Seq::<(Seq<char>, Seq<char>)>::empty());
        assert(apply_pairs_spec(m.insert(p.0, p.1), ps.push(p).drop_first())
            == m.insert(p.0, p.1));
        assert(apply_pairs_spec(m, ps) == m);
    } else {
        assert(ps.push(p)[0] == ps[0]);
        assert(ps.push(p).drop_first() =~= ps.drop_first().push(p));
        lemma_apply_pairs_push(m.insert(ps[0].0, ps[0].1), ps.drop_first(), p);
    }
}

/// The last write for `k` in `ps + qs` is the last one in `qs`, or, failing
/// that, the last one in `ps`.
pub proof fn lemma_last_value_add(
    ps: Seq<(Seq<char>, Seq<char>)>,
    qs: Seq<(Seq<char>, Seq<char>)>,
    k: Seq<char>,
)
    ensures
        last_value(ps + qs, k) == (match last_value(qs, k) {
            Some(v) => Some(v),
            None => last_value(ps, k),
        }),
    decreases ps.len(),
{
    if ps.len() == 0 {
        assert(ps + qs =~= qs);
    } else {
        assert((ps + qs).drop_first() =~= ps.drop_first() + qs);
        lemma_last_value_add(ps.drop_first(), qs, k);
    }
}

/// The last write for `k` after appending one write `p`: `p` itself if its
/// key is `k`, else whatever it was before.
pub proof fn lemma_last_value_push(
    ps: Seq<(Seq<char>, Seq<char>)>,
    p: (Seq<char>, Seq<char>),
    k: Seq<char>,
)
    ensures
        last_value(ps.push(p), k) == (if p.0 == k {
            Some(p.1)
        } else {
            last_value(ps, k)
        }),
{
    assert(ps.push(p) =~= ps + seq![p]);
    lemma_last_value_add(ps, seq![p], k);
    assert(seq![p][0] == p);
    assert(seq![p].drop_first() =~= Seq::<(Seq<char>, Seq<char>)>::empty());
    assert(last_value(seq![p].drop_first(), k) is None);
    assert(last_value(seq![p], k) == (if p.0 == k {
        Some(p.1)
    } else {
        None::<Seq<char>>
    }));
}

/// An in-memory environment snapshot. It records the ordered log of writes
/// made through `set`; its abstract view is the key/value map those writes
/// produce. A key never written is absent from the view: the process
/// environment this snapshot stands for keeps its own value for it.
pub struct EnvMap {
    writes: Vec<(String, String)>,
}

impl View for EnvMap {
    type V = Map<Seq<char>, Seq<char>>;

    closed spec fn view(&self) -> Map<Seq<char>, Seq<char>> {
        apply_pairs_spec(Map::empty(), self.writes.deep_view())
    }
}

impl EnvMap {
    /// The ordered log of writes made so far, keys and values as character
    /// sequences.
    pub closed spec fn log(&self) -> Seq<(Seq<char>, Seq<char>)> {
        self.writes.deep_view()
    }

    /// The view is exactly the writes of the log performed in order.
    pub proof fn lemma_view_is_applied_log(&self)
        ensures
            self@ == apply_pairs_spec(Map::<Seq<char>, Seq<char>>::empty(), self.log()),
    {
    }

    /// Creates an empty snapshot: no writes, empty view.
    pub fn new() -> (r: EnvMap)
        ensures
            r@ == Map::<Seq<char>, Seq<char>>::empty(),
            r.log() == Seq::<(Seq<char>, Seq<char>)>::empty(),
    {
        let r = EnvMap { writes: Vec::new() };
        proof {
            assert(r.log() =~= Seq::<(Seq<char>, Seq<char>)>::empty());
        }
        r
    }

    /// Writes `value` under `key`, overwriting any existing value: the write
    /// is appended to the log and its pair inserted into the view.
    pub fn set(&mut self, key: String, value: String)
        ensures
            final(self)@ == old(self)@.insert(key@, value@),
            final(self).log() == old(self).log().push((key@, value@)),
    {
        let ghost k = key@;
        let ghost v = value@;
        let ghost oldlog = self.log();
        self.writes.push((key, value));
        proof {
            assert(self.log() =~= oldlog.push((k, v)));
            lemma_apply_pairs_push(Map::empty(), oldlog, (k, v));
        }
    }

    /// Looks a key up: `Some` with the value of the last write for it, or
    /// `None` if this snapshot never wrote it.
    pub fn get(&self, key: &String) -> (r: Option<&String>)
        ensures
            (match r {
                Some(v) => self@.contains_key(key@) && self@[key@] == v@,
                None => !self@.contains_key(key@),
            }),
    {
        let mut found: Option<usize> = None;
        let mut i: usize = 0;
        while i < self.writes.len()
            invariant
                i <= self.writes.len(),
                (match found {
                    Some(j) => j < i && last_value(self.log().take(i as int), key@) == Some(
                        self.log()[j as int].1,
                    ),
                    None => last_value(self.log().take(i as int), key@) is None,
                }),
            decreases self.writes.len() - i,
        {
            proof {
                assert(self.log().take(i + 1) =~= self.log().take(i as int).push(
                    self.log()[i as int],
                ));
                lemma_last_value_push(self.log().take(i as int), self.log()[i as int], key@);
            }
            if self.writes[i].0 == *key {
                found = Some(i);
            }
            i += 1;
        }
        proof {
            assert(self.log().take(i as int) =~= self.log());
            lemma_apply_pairs_last(Map::empty(), self.log(), key@);
        }
        match found {
            Some(j) => Some(&self.writes[j].1),
            None => None,
        }
    }

    /// The writes made so far, in order, as owned strings.
    pub fn entries(&self) -> (r: &Vec<(String, String)>)
        ensures
            r.deep_view() == self.log(),
    {
        &self.writes
    }
}

} // verus!
