//! Choosing the newest of the versions that a source offers.

use crate::architectury::VersionDefinition;
use crate::order::{law_same_rank, law_transitive, law_trichotomy, version_lt};
use crate::pattern::{finds_match, is_match};
use crate::text::texts;
use crate::version::{parse_spec, Version, VersionView};
use regex::Regex;
use vstd::prelude::*;

verus! {

/// A candidate that passed the filter is not a version.
#[derive(Debug, Clone, Copy, PartialEq, Eq)]
pub struct SelectError;

/// Whether `i` is the position of a candidate that the filter lets pass.
pub open spec fn admitted(filter: Regex, candidates: Seq<Seq<char>>, i: int) -> bool {
    0 <= i < candidates.len() && finds_match(filter, candidates[i])
}

/// Whether the filter lets a candidate pass that is not a version.
pub open spec fn admits_malformed(filter: Regex, candidates: Seq<Seq<char>>) -> bool {
    exists|i: int| #[trigger] admitted(filter, candidates, i) && parse_spec(candidates[i]) is None
}

/// The version that candidate `i` denotes.
pub open spec fn version_at(candidates: Seq<Seq<char>>, i: int) -> VersionView {
    parse_spec(candidates[i]).unwrap()
}

/// Whether candidate `i` is the newest of the candidates that the filter lets
/// pass: none of them is newer, and those of the same rank all stand before
/// it.
pub open spec fn newest(filter: Regex, candidates: Seq<Seq<char>>, i: int) -> bool {
    &&& admitted(filter, candidates, i)
    &&& forall|j: int|
        0 <= j < i && #[trigger] admitted(filter, candidates, j) ==> !version_lt(
            version_at(candidates, i),
            version_at(candidates, j),
        )
    &&& forall|j: int|
        i < j && #[trigger] admitted(filter, candidates, j) ==> version_lt(
            version_at(candidates, j),
            version_at(candidates, i),
        )
}

/// There is at most one newest candidate.
pub proof fn law_newest_unique(filter: Regex, candidates: Seq<Seq<char>>, i: int, j: int)
    requires
        newest(filter, candidates, i),
        newest(filter, candidates, j),
    ensures
        i == j,
{
}

/// Whether each of the candidates is a version.
pub open spec fn all_versions(candidates: Seq<Seq<char>>) -> bool {
    forall|i: int| 0 <= i < candidates.len() ==> parse_spec(#[trigger] candidates[i]) is Some
}

/// Whether candidate `i` is the latest among the first `n` candidates: none
/// of them is newer, and those of the same rank all stand before it.
pub open spec fn latest_among(candidates: Seq<Seq<char>>, n: int, i: int) -> bool {
    &&& 0 <= i < n
    &&& forall|j: int|
        0 <= j < i ==> !version_lt(version_at(candidates, i), #[trigger] version_at(candidates, j))
    &&& forall|j: int|
        i < j < n ==> version_lt(#[trigger] version_at(candidates, j), version_at(candidates, i))
}

/// Whether candidate `i` is the latest of all.
pub open spec fn latest(candidates: Seq<Seq<char>>, i: int) -> bool {
    latest_among(candidates, candidates.len() as int, i)
}

/// There is at most one latest candidate.
pub proof fn law_latest_unique(candidates: Seq<Seq<char>>, i: int, j: int)
    requires
        latest(candidates, i),
        latest(candidates, j),
    ensures
        i == j,
{
    if i < j {
        assert(!version_lt(version_at(candidates, j), version_at(candidates, i)));
    } else if j < i {
        assert(!version_lt(version_at(candidates, i), version_at(candidates, j)));
    }
}

/// Where the candidate at `n` is not older than the latest of those before
/// it, it is the latest of the first `n + 1`.
proof fn lemma_later_takes_over(candidates: Seq<Seq<char>>, n: int, held: int)
    requires
        latest_among(candidates, n, held),
        !version_lt(version_at(candidates, n), version_at(candidates, held)),
    ensures
        latest_among(candidates, n + 1, n),
{
    let new = version_at(candidates, n);
    let old = version_at(candidates, held);
    law_trichotomy(old, new);
    assert forall|j: int| 0 <= j < n implies !version_lt(
        new,
        #[trigger] version_at(candidates, j),
    ) by {
        let other = version_at(candidates, j);
        if version_lt(new, other) {
            law_trichotomy(old, other);
            law_same_rank(new, other, old);
            if version_lt(other, old) {
                law_transitive(new, other, old);
            }
        }
    }
}

/// Picks the latest of the candidates.
///
/// Every candidate must be a version, else the choice fails as a whole.
/// Among versions of the same rank the one that stands last is picked.
pub fn latest_of(candidates: &Vec<String>) -> (r: Result<Option<Version>, SelectError>)
    ensures
        match r {
            Err(_) => !all_versions(texts(candidates@)),
            Ok(None) => candidates@.len() == 0,
            Ok(Some(version)) => all_versions(texts(candidates@)) && exists|i: int|
                #[trigger] latest(texts(candidates@), i) && version_at(texts(candidates@), i)
                    == version@,
        },
{
    let ghost all = texts(candidates@);
    let mut best: Option<Version> = None;
    let ghost mut at: int = 0;
    let mut n: usize = 0;
    while n < candidates.len()
        invariant
            n <= candidates.len(),
            all == texts(candidates@),
            forall|i: int| 0 <= i < n ==> parse_spec(#[trigger] all[i]) is Some,
            best is None ==> n == 0,
            best matches Some(version) ==> latest_among(all, n as int, at) && version_at(all, at)
                == version@,
        decreases candidates.len() - n,
    {
        let candidate = candidates[n].as_str();
        assert(all[n as int] == candidate@);
        match Version::from_str(candidate) {
            Err(_) => {
                return Err(SelectError);
            },
            Ok(version) => {
                let keep = match &best {
                    Some(held) => version < *held,
                    None => false,
                };
                proof {
                    if !keep && best is Some {
                        lemma_later_takes_over(all, n as int, at);
                    }
                }
                if !keep {
                    best = Some(version);
                    proof {
                        at = n as int;
                    }
                }
            },
        }
        n += 1;
    }
    proof {
        if best is Some {
            assert(latest(all, at));
        }
    }
    Ok(best)
}

/// Whether `passed` holds the candidates among the first `n` that the filter
/// lets pass, in their order, and `origin` the position of each of them in
/// `candidates`.
spec fn filtered(
    filter: Regex,
    candidates: Seq<Seq<char>>,
    n: int,
    passed: Seq<Seq<char>>,
    origin: Seq<int>,
) -> bool {
    &&& origin.len() == passed.len()
    &&& forall|k: int|
        0 <= k < origin.len() ==> 0 <= #[trigger] origin[k] < n && admitted(
            filter,
            candidates,
            origin[k],
        ) && passed[k] == candidates[origin[k]]
    &&& forall|k: int, l: int|
        0 <= k < l < origin.len() ==> #[trigger] origin[k] < #[trigger] origin[l]
    &&& forall|i: int|
        0 <= i < n && #[trigger] admitted(filter, candidates, i) ==> exists|k: int|
            0 <= k < origin.len() && #[trigger] origin[k] == i
}

/// The latest of the candidates that the filter lets pass is the newest of
/// the candidates.
proof fn lemma_latest_of_filtered(
    filter: Regex,
    candidates: Seq<Seq<char>>,
    passed: Seq<Seq<char>>,
    origin: Seq<int>,
    k: int,
)
    requires
        filtered(filter, candidates, candidates.len() as int, passed, origin),
        latest(passed, k),
    ensures
        newest(filter, candidates, origin[k]),
        version_at(candidates, origin[k]) == version_at(passed, k),
{
    let i = origin[k];
    assert forall|j: int| 0 <= j < i && #[trigger] admitted(filter, candidates, j) implies !version_lt(
        version_at(candidates, i),
        version_at(candidates, j),
    ) by {
        let l = choose|l: int| 0 <= l < origin.len() && #[trigger] origin[l] == j;
        if l >= k {
            if l > k {
                assert(origin[k] < origin[l]);
            }
        } else {
            assert(version_at(passed, l) == version_at(candidates, j));
        }
    }
    assert forall|j: int|
        i < j < candidates.len() && #[trigger] admitted(filter, candidates, j) implies version_lt(
        version_at(candidates, j),
        version_at(candidates, i),
    ) by {
        let l = choose|l: int| 0 <= l < origin.len() && #[trigger] origin[l] == j;
        if l <= k {
            if l < k {
                assert(origin[l] < origin[k]);
            }
        } else {
            assert(version_at(passed, l) == version_at(candidates, j));
        }
    }
}

/// Picks the newest version among the candidates that match the filter of
/// `definition`.
///
/// Every candidate that matches must be a version, else the selection fails
/// as a whole. Where none matches there is nothing to pick. Among versions
/// of the same rank the one that stands last in `candidates` is picked.
pub fn select_latest(definition: &VersionDefinition, candidates: &Vec<String>) -> (r: Result<
    Option<Version>,
    SelectError,
>)
    ensures
        match r {
            Err(_) => admits_malformed(definition.filter, texts(candidates@)),
            Ok(None) => forall|i: int| !admitted(definition.filter, texts(candidates@), i),
            Ok(Some(version)) => !admits_malformed(definition.filter, texts(candidates@))
                && exists|i: int|
                #[trigger] newest(definition.filter, texts(candidates@), i) && version_at(
                    texts(candidates@),
                    i,
                ) == version@,
        },
{
    let ghost filter = definition.filter;
    let ghost all = texts(candidates@);
    let ghost mut origin: Seq<int> = Seq::empty();
    let mut passed: Vec<String> = Vec::new();
    let mut n: usize = 0;
    while n < candidates.len()
        invariant
            n <= candidates.len(),
            filter == definition.filter,
            all == texts(candidates@),
            filtered(filter, all, n as int, texts(passed@), origin),
        decreases candidates.len() - n,
    {
        let candidate = &candidates[n];
        assert(all[n as int] == candidate@);
        if is_match(&definition.filter, candidate.as_str()) {
            let ghost held = origin;
            let ghost before = texts(passed@);
            passed.push(candidate.clone());
            proof {
                origin = origin.push(n as int);
                assert(texts(passed@) =~= before.push(candidate@));
                assert forall|i: int|
                    0 <= i < n + 1 && #[trigger] admitted(filter, all, i) implies exists|k: int|
                    0 <= k < origin.len() && #[trigger] origin[k] == i by {
                    if i < n {
                        let k = choose|k: int| 0 <= k < held.len() && #[trigger] held[k] == i;
                        assert(origin[k] == i);
                    } else {
                        assert(origin[held.len() as int] == i);
                    }
                }
                assert forall|k: int, l: int| 0 <= k < l < origin.len() implies #[trigger] origin[k]
                    < #[trigger] origin[l] by {
                    if l < held.len() {
                        assert(held[k] < held[l]);
                    } else {
                        assert(0 <= held[k] < n);
                    }
                }
                assert forall|k: int| 0 <= k < origin.len() implies 0 <= #[trigger] origin[k] < n
                    + 1 && admitted(filter, all, origin[k]) && texts(passed@)[k] == all[origin[k]] by {
                    if k < held.len() {
                        assert(0 <= held[k] < n);
                    }
                }
            }
        } else {
            proof {
                assert forall|i: int|
                    0 <= i < n + 1 && #[trigger] admitted(filter, all, i) implies exists|k: int|
                    0 <= k < origin.len() && #[trigger] origin[k] == i by {
                    assert(i < n);
                }
                assert forall|k: int| 0 <= k < origin.len() implies 0 <= #[trigger] origin[k] < n
                    + 1 && admitted(filter, all, origin[k]) && texts(passed@)[k] == all[origin[k]] by {
                    assert(0 <= origin[k] < n);
                }
            }
        }
        n += 1;
    }
    let r = latest_of(&passed);
    proof {
        let chosen = texts(passed@);
        if r is Err {
            let k = choose|k: int| 0 <= k < chosen.len() && !(parse_spec(#[trigger] chosen[k]) is Some);
            assert(admitted(filter, all, origin[k]));
        } else {
            if admits_malformed(filter, all) {
                let i = choose|i: int|
                    #[trigger] admitted(filter, all, i) && parse_spec(all[i]) is None;
                let k = choose|k: int| 0 <= k < origin.len() && #[trigger] origin[k] == i;
                assert(chosen[k] == all[i]);
                assert(!all_versions(chosen));
                assert(chosen.len() > 0);
            }
            let found = r->Ok_0;
            if found is Some {
                let k = choose|k: int|
                    #[trigger] latest(chosen, k) && version_at(chosen, k) == found->0@;
                lemma_latest_of_filtered(filter, all, chosen, origin, k);
                assert(newest(filter, all, origin[k]));
            } else {
                assert forall|i: int| !admitted(filter, all, i) by {
                    if admitted(filter, all, i) {
                        let k = choose|k: int| 0 <= k < origin.len() && #[trigger] origin[k] == i;
                    }
                }
            }
        }
    }
    r
}

} // verus!
