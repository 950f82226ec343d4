//! Laws of the cascade: what the fixed file order and the unconditional
//! overwrite guarantee of a whole load.

use vstd::prelude::*;

use crate::cascade::FileOutcome;
use crate::cascade::cascade_log;
use crate::cascade::cascade_map;
use crate::cascade::cascade_ok;
use crate::cascade::outcome_pairs;
use crate::env_map::apply_pairs_spec;
use crate::env_map::last_value;
use crate::env_map::lemma_apply_pairs_last;
use crate::env_map::lemma_last_value_add;

verus! {

/// Applying two write sequences one after the other is applying their
/// concatenation.
pub proof fn lemma_apply_pairs_add(
    m: Map<Seq<char>, Seq<char>>,
    a: Seq<(Seq<char>, Seq<char>)>,
    b: Seq<(Seq<char>, Seq<char>)>,
)
    ensures
        apply_pairs_spec(apply_pairs_spec(m, a), b) == apply_pairs_spec(m, a + b),
    decreases a.len(),
{
    if a.len() == 0 {
        assert(a + b =~= b);
    } else {
        assert((a + b)[0] == a[0]);
        assert((a + b).drop_first() =~= a.drop_first() + b);
        lemma_apply_pairs_add(m.insert(a[0].0, a[0].1), a.drop_first(), b);
    }
}

/// A load in which every candidate file is missing succeeds and changes
/// nothing: the map is left as it was and no write is made.
pub proof fn lemma_missing_files_no_effect(m: Map<Seq<char>, Seq<char>>, outs: Seq<FileOutcome>)
    requires
        forall|i: int| 0 <= i < outs.len() ==> outs[i] is Missing,
    ensures
        cascade_ok(outs),
        cascade_map(m, outs) == m,
        cascade_log(outs) == Seq::<(Seq<char>, Seq<char>)>::empty(),
    decreases outs.len(),
{
    if outs.len() > 0 {
        assert(outs[0] is Missing);
        assert(outcome_pairs(outs[0]) =~= Seq::<(Seq<char>, Seq<char>)>::empty());
        assert(apply_pairs_spec(m, outcome_pairs(outs[0])) == m);
        assert(forall|i: int| 0 <= i < outs.drop_first().len() ==> outs.drop_first()[i] == outs[i + 1]);
        lemma_missing_files_no_effect(m, outs.drop_first());
        assert(cascade_log(outs) =~= Seq::<(Seq<char>, Seq<char>)>::empty());
    }
}

/// A clean cascade (every present file parsed) equals performing the whole
/// concatenated write log at once.
pub proof fn lemma_cascade_collapses(m: Map<Seq<char>, Seq<char>>, outs: Seq<FileOutcome>)
    requires
        cascade_ok(outs),
    ensures
        cascade_map(m, outs) == apply_pairs_spec(m, cascade_log(outs)),
    decreases outs.len(),
{
    if outs.len() == 0 {
        assert(cascade_log(outs) =~= Seq::<(Seq<char>, Seq<char>)>::empty());
    } else {
        assert(!(outs[0] is Malformed));
        assert(forall|i: int| 0 <= i < outs.drop_first().len() ==> outs.drop_first()[i] == outs[i + 1]);
        lemma_cascade_collapses(apply_pairs_spec(m, outcome_pairs(outs[0])), outs.drop_first());
        lemma_apply_pairs_add(m, outcome_pairs(outs[0]), cascade_log(outs.drop_first()));
    }
}

/// Override law: in a clean load, a key whose last write in the files'
/// concatenated logs (taken in cascade order, so a later file's write stands
/// after every earlier file's) carries `v` ends up mapped to `v`: the
/// highest-precedence file that defines the key wins.
pub proof fn lemma_override_last_wins(
    m: Map<Seq<char>, Seq<char>>,
    outs: Seq<FileOutcome>,
    k: Seq<char>,
    v: Seq<char>,
)
    requires
        cascade_ok(outs),
        last_value(cascade_log(outs), k) == Some(v),
    ensures
        cascade_map(m, outs).contains_key(k),
        cascade_map(m, outs)[k] == v,
{
    lemma_cascade_collapses(m, outs);
    lemma_apply_pairs_last(m, cascade_log(outs), k);
}

/// A key that no file writes is untouched by a clean load: present exactly
/// when it was present before, with its value kept.
pub proof fn lemma_untouched_key(m: Map<Seq<char>, Seq<char>>, outs: Seq<FileOutcome>, k: Seq<char>)
    requires
        cascade_ok(outs),
        last_value(cascade_log(outs), k) is None,
    ensures
        cascade_map(m, outs).contains_key(k) <==> m.contains_key(k),
        m.contains_key(k) ==> cascade_map(m, outs)[k] == m[k],
{
    lemma_cascade_collapses(m, outs);
    lemma_apply_pairs_last(m, cascade_log(outs), k);
}

/// If no outcome writes `k`, the concatenated log has no write for `k`.
pub proof fn lemma_no_definer(outs: Seq<FileOutcome>, k: Seq<char>)
    requires
        cascade_ok(outs),
        forall|j: int| 0 <= j < outs.len() ==> last_value(outcome_pairs(outs[j]), k) is None,
    ensures
        last_value(cascade_log(outs), k) is None,
    decreases outs.len(),
{
    if outs.len() == 0 {
        assert(cascade_log(outs) =~= Seq::<(Seq<char>, Seq<char>)>::empty());
    } else {
        assert(!(outs[0] is Malformed));
        assert(forall|j: int| 0 <= j < outs.drop_first().len() ==> outs.drop_first()[j] == outs[j + 1]);
        lemma_no_definer(outs.drop_first(), k);
        lemma_last_value_add(outcome_pairs(outs[0]), cascade_log(outs.drop_first()), k);
        assert(last_value(outcome_pairs(outs[0]), k) is None);
    }
}

/// In the concatenated log, the last write for `k` is the last write for `k`
/// of the last file that defines `k` at all.
pub proof fn lemma_last_definer_in_log(
    outs: Seq<FileOutcome>,
    i: int,
    k: Seq<char>,
    v: Seq<char>,
)
    requires
        cascade_ok(outs),
        0 <= i < outs.len(),
        last_value(outcome_pairs(outs[i]), k) == Some(v),
        forall|j: int| i < j < outs.len() ==> last_value(outcome_pairs(outs[j]), k) is None,
    ensures
        last_value(cascade_log(outs), k) == Some(v),
    decreases outs.len(),
{
    assert(!(outs[0] is Malformed));
    assert(forall|j: int| 0 <= j < outs.drop_first().len() ==> outs.drop_first()[j] == outs[j + 1]);
    lemma_last_value_add(outcome_pairs(outs[0]), cascade_log(outs.drop_first()), k);
    if i == 0 {
        lemma_no_definer(outs.drop_first(), k);
    } else {
        lemma_last_definer_in_log(outs.drop_first(), i - 1, k, v);
    }
}

/// Precedence law: in a clean load, the key `k` ends with value `v` taken
/// from the highest-precedence (latest) file that defines `k`, whatever the
/// earlier files say of it.
pub proof fn lemma_highest_precedence(
    m: Map<Seq<char>, Seq<char>>,
    outs: Seq<FileOutcome>,
    i: int,
    k: Seq<char>,
    v: Seq<char>,
)
    requires
        cascade_ok(outs),
        0 <= i < outs.len(),
        last_value(outcome_pairs(outs[i]), k) == Some(v),
        forall|j: int| i < j < outs.len() ==> last_value(outcome_pairs(outs[j]), k) is None,
    ensures
        cascade_map(m, outs).contains_key(k),
        cascade_map(m, outs)[k] == v,
{
    lemma_last_definer_in_log(outs, i, k, v);
    lemma_override_last_wins(m, outs, k, v);
}

/// Independence law: a key defined by exactly one file gets that file's
/// value, regardless of which other files exist or what they hold.
pub proof fn lemma_single_definer(
    m: Map<Seq<char>, Seq<char>>,
    outs: Seq<FileOutcome>,
    i: int,
    k: Seq<char>,
    v: Seq<char>,
)
    requires
        cascade_ok(outs),
        0 <= i < outs.len(),
        last_value(outcome_pairs(outs[i]), k) == Some(v),
        forall|j: int| 0 <= j < outs.len() && j != i ==> last_value(outcome_pairs(outs[j]), k) is None,
    ensures
        cascade_map(m, outs).contains_key(k),
        cascade_map(m, outs)[k] == v,
{
    lemma_highest_precedence(m, outs, i, k, v);
}

} // verus!
