//! The cascade loader: the ordered candidate file list, and the application
//! of each file's key/value pairs to the environment snapshot in list order,
//! later files overriding earlier ones.

use vstd::prelude::*;
use vstd::string::StringExecFns;

use crate::env_map::EnvMap;
use crate::env_map::apply_pairs_spec;
use crate::env_map::lemma_apply_pairs_push;
use crate::profile::Profile;

verus! {

/// How one candidate file fared: absent, parsed into key/value pairs in line
/// order, or found to hold a malformed line.
#[derive(Debug, PartialEq, Eq)]
pub enum FileOutcome {
    Missing,
    Parsed(Vec<(String, String)>),
    Malformed,
}

/// An error from a load: the profile selector held an unrecognized value
/// (carried along), or a candidate file existed but failed to parse.
#[derive(PartialEq, Eq, Debug)]
pub enum LoadError {
    InvalidProfile(String),
    Parse,
}

/// The writes one outcome contributes: a missing or malformed file
/// contributes none.
pub open spec fn outcome_pairs(o: FileOutcome) -> Seq<(Seq<char>, Seq<char>)> {
    match o {
        FileOutcome::Missing => Seq::empty(),
        FileOutcome::Parsed(v) => v.deep_view(),
        FileOutcome::Malformed => Seq::empty(),
    }
}

/// Whether every present file parsed: no outcome is malformed.
pub open spec fn cascade_ok(outs: Seq<FileOutcome>) -> bool {
    forall|i: int| 0 <= i < outs.len() ==> !(outs[i] is Malformed)
}

/// The map after loading the outcomes in order on top of `m`: each parsed
/// file's writes are applied in turn, and the first malformed file stops the
/// cascade, everything applied before it remaining.
pub open spec fn cascade_map(
    m: Map<Seq<char>, Seq<char>>,
    outs: Seq<FileOutcome>,
) -> Map<Seq<char>, Seq<char>>
    decreases outs.len(),
{
    if outs.len() == 0 {
        m
    } else if outs[0] is Malformed {
        m
    } else {
        cascade_map(apply_pairs_spec(m, outcome_pairs(outs[0])), outs.drop_first())
    }
}

/// The writes a load of the outcomes makes, in order: the files' pair
/// sequences concatenated in cascade order, up to the first malformed file.
pub open spec fn cascade_log(outs: Seq<FileOutcome>) -> Seq<(Seq<char>, Seq<char>)>
    decreases outs.len(),
{
    if outs.len() == 0 {
        Seq::empty()
    } else if outs[0] is Malformed {
        Seq::empty()
    } else {
        outcome_pairs(outs[0]) + cascade_log(outs.drop_first())
    }
}

/// One more outcome at the end of a clean cascade extends the map and the log
/// by that outcome's writes.
pub proof fn lemma_cascade_push(m: Map<Seq<char>, Seq<char>>, outs: Seq<FileOutcome>, o: FileOutcome)
    requires
        cascade_ok(outs),
    ensures
        !(o is Malformed) ==> cascade_map(m, outs.push(o)) == apply_pairs_spec(
            cascade_map(m, outs),
            outcome_pairs(o),
        ),
        !(o is Malformed) ==> cascade_log(outs.push(o)) == cascade_log(outs) + outcome_pairs(o),
        o is Malformed ==> cascade_map(m, outs.push(o)) == cascade_map(m, outs),
        o is Malformed ==> cascade_log(outs.push(o)) == cascade_log(outs),
    decreases outs.len(),
{
    if outs.len() == 0 {
        assert(outs.push(o)[0] == o);
        assert(outs.push(o).drop_first() =~= Seq::<FileOutcome>::empty());
        if !(o is Malformed) {
            assert(cascade_map(m, outs.push(o)) == cascade_map(
                apply_pairs_spec(m, outcome_pairs(o)),
                Seq::<FileOutcome>::empty(),
            ));
            assert(cascade_log(Seq::<FileOutcome>::empty())
                == Seq::<(Seq<char>, Seq<char>)>::empty());
            assert(cascade_log(outs.push(o)) == outcome_pairs(o) + cascade_log(
                Seq::<FileOutcome>::empty(),
            ));
            assert(cascade_log(outs.push(o)) =~= cascade_log(outs) + outcome_pairs(o));
        }
    } else {
        assert(outs.push(o)[0] == outs[0]);
        assert(outs.push(o).drop_first() =~= outs.drop_first().push(o));
        assert(cascade_ok(outs.drop_first())) by {
            assert(forall|i: int|
                0 <= i < outs.drop_first().len() ==> outs.drop_first()[i] == outs[i + 1]);
        }
        lemma_cascade_push(apply_pairs_spec(m, outcome_pairs(outs[0])), outs.drop_first(), o);
        if !(o is Malformed) {
            assert(cascade_log(outs.push(o)) =~= cascade_log(outs) + outcome_pairs(o)) by {
                assert(cascade_log(outs.push(o)) == outcome_pairs(outs[0]) + cascade_log(
                    outs.drop_first().push(o),
                ));
            }
        }
    }
}

/// A cascade whose first malformed outcome stands at `i` applies exactly the
/// outcomes before `i`: what was loaded from earlier files remains.
pub proof fn lemma_cascade_stops_at_malformed(
    m: Map<Seq<char>, Seq<char>>,
    outs: Seq<FileOutcome>,
    i: int,
)
    requires
        0 <= i < outs.len(),
        cascade_ok(outs.take(i)),
        outs[i] is Malformed,
    ensures
        cascade_map(m, outs) == cascade_map(m, outs.take(i)),
        cascade_log(outs) == cascade_log(outs.take(i)),
    decreases i,
{
    if i == 0 {
        assert(cascade_map(m, outs.take(0)) == m);
        assert(cascade_log(outs.take(0)) =~= Seq::<(Seq<char>, Seq<char>)>::empty());
    } else {
        assert(outs.take(i)[0] == outs[0]);
        assert(!(outs[0] is Malformed));
        assert(outs.drop_first().take(i - 1) =~= outs.take(i).drop_first());
        assert(cascade_ok(outs.drop_first().take(i - 1))) by {
            assert(forall|j: int|
                0 <= j < i - 1 ==> outs.take(i).drop_first()[j] == outs.take(i)[j + 1]);
        }
        assert(outs.drop_first()[i - 1] == outs[i]);
        lemma_cascade_stops_at_malformed(
            apply_pairs_spec(m, outcome_pairs(outs[0])),
            outs.drop_first(),
            i - 1,
        );
    }
}

/// The name of the profile-specific candidate file: the base file's name
/// extended by a dot and the profile's canonical name.
pub open spec fn profile_file_name_spec(p: Profile) -> Seq<char> {
    ".env."@ + p.name_spec()
}

/// Builds the ordered candidate file list for `p`: the base file, the
/// profile-specific file, and the local-override file, in that fixed order;
/// later files take precedence over earlier ones.
pub fn candidate_files(p: Profile) -> (r: Vec<String>)
    ensures
        r@.len() == 3,
        r@[0]@ == ".env"@,
        r@[1]@ == profile_file_name_spec(p),
        r@[2]@ == ".env.local"@,
{
    let mut files: Vec<String> = Vec::new();
    files.push(".env".to_string());
    let mut pf: String = ".env.".to_string();
    pf.append(p.name().as_str());
    files.push(pf);
    files.push(".env.local".to_string());
    files
}

/// Performs the writes `pairs`, in order, on the snapshot: each one
/// overwrites any existing value for its key, so for duplicate keys the last
/// pair wins.
pub fn apply_pairs(env: &mut EnvMap, pairs: &Vec<(String, String)>)
    ensures
        final(env)@ == apply_pairs_spec(old(env)@, pairs.deep_view()),
        final(env).log() == old(env).log() + pairs.deep_view(),
{
    proof {
        assert(pairs.deep_view().take(0) =~= Seq::<(Seq<char>, Seq<char>)>::empty());
        assert(old(env).log() + pairs.deep_view().take(0) =~= old(env).log());
    }
    let mut i: usize = 0;
    while i < pairs.len()
        invariant
            i <= pairs.len(),
            env@ == apply_pairs_spec(old(env)@, pairs.deep_view().take(i as int)),
            env.log() == old(env).log() + pairs.deep_view().take(i as int),
        decreases pairs.len() - i,
    {
        let ghost prelog = env.log();
        let key = pairs[i].0.clone();
        let value = pairs[i].1.clone();
        env.set(key, value);
        proof {
            let dv = pairs.deep_view();
            assert(dv[i as int] == (pairs@[i as int].0@, pairs@[i as int].1@));
            assert(dv.take(i + 1) =~= dv.take(i as int).push(dv[i as int]));
            lemma_apply_pairs_push(old(env)@, dv.take(i as int), dv[i as int]);
            assert(prelog.push(dv[i as int]) =~= old(env).log() + dv.take(i + 1));
        }
        i += 1;
    }
    proof {
        assert(pairs.deep_view().take(pairs.len() as int) =~= pairs.deep_view());
    }
}

/// Loads the outcomes in order: a missing file is skipped silently, a parsed
/// file's pairs are written to the snapshot in order, and the first malformed
/// file aborts the whole load with `Parse`, the writes already made
/// remaining applied.
pub fn load_outcomes(env: &mut EnvMap, outcomes: &Vec<FileOutcome>) -> (r: Result<(), LoadError>)
    ensures
        r is Ok <==> cascade_ok(outcomes@),
        r is Err ==> r == Err::<(), LoadError>(LoadError::Parse),
        final(env)@ == cascade_map(old(env)@, outcomes@),
        final(env).log() == old(env).log() + cascade_log(outcomes@),
{
    proof {
        assert(outcomes@.take(0) =~= Seq::<FileOutcome>::empty());
        assert(old(env).log() + cascade_log(outcomes@.take(0)) =~= old(env).log());
    }
    let mut i: usize = 0;
    while i < outcomes.len()
        invariant
            i <= outcomes.len(),
            cascade_ok(outcomes@.take(i as int)),
            env@ == cascade_map(old(env)@, outcomes@.take(i as int)),
            env.log() == old(env).log() + cascade_log(outcomes@.take(i as int)),
        decreases outcomes.len() - i,
    {
        let ghost prelog = env.log();
        proof {
            assert(outcomes@.take(i + 1) =~= outcomes@.take(i as int).push(outcomes@[i as int]));
            lemma_cascade_push(old(env)@, outcomes@.take(i as int), outcomes@[i as int]);
        }
        match &outcomes[i] {
            FileOutcome::Missing => {
                proof {
                    assert(outcome_pairs(outcomes@[i as int]) =~= Seq::<(Seq<char>, Seq<char>)>::empty());
                    assert(apply_pairs_spec(env@, outcome_pairs(outcomes@[i as int])) == env@);
                    assert(prelog + outcome_pairs(outcomes@[i as int]) =~= prelog);
                    assert(old(env).log() + cascade_log(outcomes@.take(i + 1)) =~= prelog);
                }
            },
            FileOutcome::Parsed(v) => {
                proof {
                    assert(outcome_pairs(outcomes@[i as int]) == v.deep_view());
                }
                apply_pairs(env, v);
                proof {
                    assert(old(env).log() + cascade_log(outcomes@.take(i + 1)) =~= (old(env).log()
                        + cascade_log(outcomes@.take(i as int))) + outcome_pairs(
                        outcomes@[i as int],
                    ));
                }
            },
            FileOutcome::Malformed => {
                proof {
                    lemma_cascade_stops_at_malformed(old(env)@, outcomes@, i as int);
                    assert(!cascade_ok(outcomes@));
                }
                return Err(LoadError::Parse);
            },
        }
        i += 1;
    }
    proof {
        assert(outcomes@.take(outcomes.len() as int) =~= outcomes@);
    }
    Ok(())
}

/// Relies on `dotenvy::from_read_iter`: its iterator yields the text's
/// KEY=value pairs in line order, or an error on a malformed line. The pairs
/// may depend on more than the bytes alone (dotenvy substitutes `$VAR`
/// references from the process environment), so no clause ties them to the
/// bytes; empty input yields no pairs and no error.
#[verifier::external_body]
fn parse_env_bytes(bytes: &Vec<u8>) -> (r: FileOutcome)
    ensures
        r is Parsed || r is Malformed,
        bytes@.len() == 0 ==> r is Parsed && outcome_pairs(r) == Seq::<(Seq<char>, Seq<char>)>::empty(),
{
    let mut pairs: Vec<(String, String)> = Vec::new();
    for item in dotenvy::from_read_iter(bytes.as_slice()) {
        match item {
            Ok(pair) => pairs.push(pair),
            Err(_) => return FileOutcome::Malformed,
        }
    }
    FileOutcome::Parsed(pairs)
}

/// Loads the three candidate files' contents in cascade order: the base
/// file, then the profile-specific file, then the local-override file,
/// `None` standing for a file that does not exist, which is skipped
/// silently. Each present file is handed to the external line parser and its
/// pairs written to the snapshot in order; the first malformed file aborts
/// the load with `Parse`, the writes of the files before it remaining.
pub fn load_files(
    env: &mut EnvMap,
    base: Option<Vec<u8>>,
    profile_file: Option<Vec<u8>>,
    local: Option<Vec<u8>>,
) -> (r: Result<(), LoadError>)
    ensures
        r is Err ==> r == Err::<(), LoadError>(LoadError::Parse),
        exists|outs: Seq<FileOutcome>|
            {
                &&& outs.len() == 3
                &&& (outs[0] is Missing <==> base is None)
                &&& (outs[1] is Missing <==> profile_file is None)
                &&& (outs[2] is Missing <==> local is None)
                &&& (r is Ok <==> cascade_ok(outs))
                &&& final(env)@ == cascade_map(old(env)@, outs)
                &&& final(env).log() == old(env).log() + cascade_log(outs)
            },
        base is None && profile_file is None && local is None ==> {
            &&& r is Ok
            &&& final(env)@ == old(env)@
            &&& final(env).log() == old(env).log()
        },
{
    let o0 = match &base {
        Some(b) => parse_env_bytes(b),
        None => FileOutcome::Missing,
    };
    let o1 = match &profile_file {
        Some(b) => parse_env_bytes(b),
        None => FileOutcome::Missing,
    };
    let o2 = match &local {
        Some(b) => parse_env_bytes(b),
        None => FileOutcome::Missing,
    };
    let mut outcomes: Vec<FileOutcome> = Vec::new();
    outcomes.push(o0);
    outcomes.push(o1);
    outcomes.push(o2);
    let r = load_outcomes(env, &outcomes);
    proof {
        let outs = outcomes@;
        assert(outs.len() == 3);
        if base is None && profile_file is None && local is None {
            crate::laws::lemma_missing_files_no_effect(old(env)@, outs);
            assert(old(env).log() + cascade_log(outs) =~= old(env).log());
        }
    }
    r
}

} // verus!
