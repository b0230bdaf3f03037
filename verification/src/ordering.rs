//! Comparing versions: `cmp`, `==` and `<` on [`Version`].

use crate::order::{
    common_prefix, component_at, first_difference, law_trichotomy, lemma_difference_decides,
    lemma_prefix_decides, same_components, version_equiv, version_lt,
};
use crate::text::to_chars;
use crate::version::{Version, VersionView};
use std::cmp::Ordering;
use vstd::prelude::*;

verus! {

/// How `x` stands to `y`: `Less` where it is older, `Greater` where it is
/// newer, `Equal` where the two are of the same rank.
pub open spec fn compare_spec(x: VersionView, y: VersionView) -> Ordering {
    if version_lt(x, y) {
        Ordering::Less
    } else if version_lt(y, x) {
        Ordering::Greater
    } else {
        Ordering::Equal
    }
}

/// The comparison says `Less` of exactly the pairs where the first is older,
/// `Greater` where the second is older, and `Equal` where the two are of the
/// same rank.
pub proof fn law_compare(x: VersionView, y: VersionView)
    ensures
        compare_spec(x, y) == Ordering::Less <==> version_lt(x, y),
        compare_spec(x, y) == Ordering::Greater <==> version_lt(y, x),
        compare_spec(x, y) == Ordering::Equal <==> version_equiv(x, y),
{
    law_trichotomy(x, y);
}

impl Version {
    /// Compares two versions.
    ///
    /// The numeric components decide, at the first position where they
    /// differ; a version with fewer components counts as having zeros behind
    /// them. Where all are the same, a version without a qualifier is the
    /// greater, and two qualifiers compare character by character.
    pub fn cmp(&self, other: &Version) -> (r: Ordering)
        ensures
            r == compare_spec(self@, other@),
    {
        proof {
            law_trichotomy(self@, other@);
        }
        match first_difference(&self.components, &other.components) {
            Some(at) => {
                proof {
                    lemma_difference_decides(self@, other@, at);
                }
                if component_at(&self.components, at) < component_at(&other.components, at) {
                    Ordering::Less
                } else {
                    Ordering::Greater
                }
            },
            None => match (&self.snapshot, &other.snapshot) {
                (Some(p), Some(q)) => {
                    let p = to_chars(p.as_str());
                    let q = to_chars(q.as_str());
                    let k = common_prefix(&p, &q);
                    proof {
                        lemma_prefix_decides(self@, other@, k);
                    }
                    if k == p.len() {
                        if k == q.len() {
                            Ordering::Equal
                        } else {
                            Ordering::Less
                        }
                    } else if k == q.len() {
                        Ordering::Greater
                    } else if p[k] < q[k] {
                        Ordering::Less
                    } else {
                        Ordering::Greater
                    }
                },
                (Some(_), None) => Ordering::Less,
                (None, Some(_)) => Ordering::Greater,
                (None, None) => Ordering::Equal,
            },
        }
    }
}

/// `==` on versions: the same components, position by position, and the same
/// qualifier. This is finer than being of the same rank: `1.2` and `1.2.0`
/// are not `==`, yet neither is older than the other.
impl PartialEq for Version {
    fn eq(&self, other: &Version) -> (r: bool) {
        if !same_components(&self.components, &other.components) {
            return false;
        }
        match (&self.snapshot, &other.snapshot) {
            (Some(p), Some(q)) => *p == *q,
            (None, None) => true,
            _ => false,
        }
    }
}

impl vstd::std_specs::cmp::PartialEqSpecImpl for Version {
    open spec fn obeys_eq_spec() -> bool {
        true
    }

    open spec fn eq_spec(&self, other: &Version) -> bool {
        self@ == other@
    }
}

impl Eq for Version {

}

/// `<`, `<=`, `>` and `>=` on versions go by [`Version::cmp`].
impl PartialOrd for Version {
    fn partial_cmp(&self, other: &Version) -> (r: Option<Ordering>) {
        Some(self.cmp(other))
    }
}

impl vstd::std_specs::cmp::PartialOrdSpecImpl for Version {
    open spec fn obeys_partial_cmp_spec() -> bool {
        true
    }

    open spec fn partial_cmp_spec(&self, other: &Version) -> Option<Ordering> {
        Some(compare_spec(self@, other@))
    }
}

} // verus!
