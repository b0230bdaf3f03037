//! The order of versions.
//!
//! Numeric components decide first, position by position, where a missing
//! component counts as 0. Between versions with the same numbers, one without
//! a qualifier is the newer, and two qualifiers are ordered character by
//! character.

use crate::version::VersionView;
use vstd::prelude::*;

verus! {

/// The component at position `i`; positions past the end hold 0.
pub open spec fn component(components: Seq<u32>, i: int) -> int {
    if 0 <= i < components.len() {
        components[i] as int
    } else {
        0
    }
}

/// Whether `a` and `b` hold the same component at every position before `i`.
pub open spec fn agree_before(a: Seq<u32>, b: Seq<u32>, i: int) -> bool {
    forall|j: int| 0 <= j < i ==> #[trigger] component(a, j) == component(b, j)
}

/// Whether `a` and `b` hold the same component at every position.
pub open spec fn numeric_eq(a: Seq<u32>, b: Seq<u32>) -> bool {
    forall|i: int| 0 <= i ==> #[trigger] component(a, i) == component(b, i)
}

/// Whether `a` is below `b` at the first position where they differ.
pub open spec fn numeric_lt(a: Seq<u32>, b: Seq<u32>) -> bool {
    exists|i: int| 0 <= i && #[trigger] agree_before(a, b, i) && component(a, i) < component(b, i)
}

/// Whether `p` and `q` hold the same character at every position before `k`.
pub open spec fn same_before(p: Seq<char>, q: Seq<char>, k: int) -> bool {
    forall|j: int| 0 <= j < k ==> #[trigger] p[j] == q[j]
}

/// Whether `p` comes before `q` in the order of a dictionary, characters
/// taken by their code points: at the first position where the two differ
/// `p` has ended, or holds the smaller character.
pub open spec fn text_lt(p: Seq<char>, q: Seq<char>) -> bool {
    exists|k: int|
        0 <= k <= p.len() && k < q.len() && #[trigger] same_before(p, q, k) && (k == p.len()
            || p[k] < q[k])
}

/// Whether qualifier `x` ranks below qualifier `y`: any qualifier ranks below
/// none, and two qualifiers rank as their texts do.
pub open spec fn qualifier_lt(x: Option<Seq<char>>, y: Option<Seq<char>>) -> bool {
    match (x, y) {
        (Some(p), Some(q)) => text_lt(p, q),
        (Some(_), None) => true,
        _ => false,
    }
}

/// Whether `x` is older than `y`.
pub open spec fn version_lt(x: VersionView, y: VersionView) -> bool {
    numeric_lt(x.components, y.components) || (numeric_eq(x.components, y.components)
        && qualifier_lt(x.snapshot, y.snapshot))
}

/// Whether `x` and `y` are of the same rank: the same numbers, trailing
/// zeros aside, and the same qualifier or none.
pub open spec fn version_equiv(x: VersionView, y: VersionView) -> bool {
    numeric_eq(x.components, y.components) && x.snapshot == y.snapshot
}

/// Where two sequences differ at a position, there is a first such position.
proof fn lemma_least_difference(a: Seq<u32>, b: Seq<u32>, i: int) -> (m: int)
    requires
        0 <= i,
        component(a, i) != component(b, i),
    ensures
        0 <= m <= i,
        agree_before(a, b, m),
        agree_before(b, a, m),
        component(a, m) != component(b, m),
    decreases i,
{
    if agree_before(a, b, i) {
        i
    } else {
        let j = choose|j: int| 0 <= j < i && component(a, j) != component(b, j);
        lemma_least_difference(a, b, j)
    }
}

/// Of two sequences of components exactly one holds: the first is below the
/// second, they are the same, or the second is below the first.
pub proof fn lemma_numeric_trichotomy(a: Seq<u32>, b: Seq<u32>)
    ensures
        numeric_lt(a, b) || numeric_eq(a, b) || numeric_lt(b, a),
        !(numeric_lt(a, b) && numeric_eq(a, b)),
        !(numeric_lt(b, a) && numeric_eq(a, b)),
        !(numeric_lt(a, b) && numeric_lt(b, a)),
{
    if !numeric_eq(a, b) {
        let i = choose|i: int| 0 <= i && component(a, i) != component(b, i);
        let m = lemma_least_difference(a, b, i);
        if component(a, m) < component(b, m) {
            assert(numeric_lt(a, b));
        } else {
            assert(numeric_lt(b, a));
        }
    }
    if numeric_lt(a, b) {
        let i = choose|i: int|
            0 <= i && #[trigger] agree_before(a, b, i) && component(a, i) < component(b, i);
        if numeric_lt(b, a) {
            let k = choose|k: int|
                0 <= k && #[trigger] agree_before(b, a, k) && component(b, k) < component(a, k);
            if i < k {
                assert(component(b, i) == component(a, i));
            } else if k < i {
                assert(component(a, k) == component(b, k));
            }
        }
    }
    if numeric_lt(b, a) && numeric_eq(a, b) {
        let k = choose|k: int|
            0 <= k && #[trigger] agree_before(b, a, k) && component(b, k) < component(a, k);
        assert(component(a, k) == component(b, k));
    }
}

/// Being the same in every component is symmetric and transitive.
pub proof fn lemma_numeric_eq(a: Seq<u32>, b: Seq<u32>, c: Seq<u32>)
    ensures
        numeric_eq(a, a),
        numeric_eq(a, b) ==> numeric_eq(b, a),
        numeric_eq(a, b) && numeric_eq(b, c) ==> numeric_eq(a, c),
{
    if numeric_eq(a, b) {
        assert forall|i: int| 0 <= i implies #[trigger] component(b, i) == component(a, i) by {
            assert(component(a, i) == component(b, i));
        }
        if numeric_eq(b, c) {
            assert forall|i: int| 0 <= i implies #[trigger] component(a, i) == component(c, i) by {
                assert(component(a, i) == component(b, i));
                assert(component(b, i) == component(c, i));
            }
        }
    }
}

/// The numeric order is transitive, and carries over to sequences that are
/// the same in every component.
pub proof fn lemma_numeric_lt(a: Seq<u32>, b: Seq<u32>, c: Seq<u32>)
    ensures
        numeric_lt(a, b) && numeric_lt(b, c) ==> numeric_lt(a, c),
        numeric_lt(a, b) && numeric_eq(b, c) ==> numeric_lt(a, c),
        numeric_eq(a, b) && numeric_lt(b, c) ==> numeric_lt(a, c),
{
    if numeric_lt(a, b) {
        let i = choose|i: int|
            0 <= i && #[trigger] agree_before(a, b, i) && component(a, i) < component(b, i);
        if numeric_lt(b, c) {
            let k = choose|k: int|
                0 <= k && #[trigger] agree_before(b, c, k) && component(b, k) < component(c, k);
            let m = if i < k {
                i
            } else {
                k
            };
            assert forall|j: int| 0 <= j < m implies #[trigger] component(a, j) == component(
                c,
                j,
            ) by {
                assert(component(a, j) == component(b, j));
                assert(component(b, j) == component(c, j));
            }
            if i < k {
                assert(component(b, i) == component(c, i));
            } else if k < i {
                assert(component(a, k) == component(b, k));
            }
            assert(agree_before(a, c, m) && component(a, m) < component(c, m));
        }
        if numeric_eq(b, c) {
            assert forall|j: int| 0 <= j < i implies #[trigger] component(a, j) == component(
                c,
                j,
            ) by {
                assert(component(a, j) == component(b, j));
                assert(component(b, j) == component(c, j));
            }
            assert(component(b, i) == component(c, i));
            assert(agree_before(a, c, i) && component(a, i) < component(c, i));
        }
    }
    if numeric_eq(a, b) && numeric_lt(b, c) {
        let k = choose|k: int|
            0 <= k && #[trigger] agree_before(b, c, k) && component(b, k) < component(c, k);
        assert forall|j: int| 0 <= j < k implies #[trigger] component(a, j) == component(c, j) by {
            assert(component(a, j) == component(b, j));
            assert(component(b, j) == component(c, j));
        }
        assert(component(a, k) == component(b, k));
        assert(agree_before(a, c, k) && component(a, k) < component(c, k));
    }
}

/// The length of the longest common prefix of two texts.
proof fn lemma_common_prefix(p: Seq<char>, q: Seq<char>, k: int) -> (m: int)
    requires
        0 <= k <= p.len(),
        k <= q.len(),
        same_before(p, q, k),
    ensures
        k <= m <= p.len(),
        m <= q.len(),
        same_before(p, q, m),
        same_before(q, p, m),
        m == p.len() || m == q.len() || p[m] != q[m],
    decreases p.len() - k,
{
    if k == p.len() || k == q.len() || p[k] != q[k] {
        k
    } else {
        lemma_common_prefix(p, q, k + 1)
    }
}

/// Of two texts exactly one holds: the first comes before the second, they
/// are equal, or the second comes before the first.
pub proof fn lemma_text_trichotomy(p: Seq<char>, q: Seq<char>)
    ensures
        text_lt(p, q) || p == q || text_lt(q, p),
        !(text_lt(p, q) && p == q),
        !(text_lt(q, p) && p == q),
        !(text_lt(p, q) && text_lt(q, p)),
{
    let m = lemma_common_prefix(p, q, 0);
    if m == p.len() && m == q.len() {
        assert(p =~= q);
    } else if m == p.len() {
        assert(text_lt(p, q));
    } else if m == q.len() {
        assert(text_lt(q, p));
    } else if p[m] < q[m] {
        assert(text_lt(p, q));
    } else {
        assert(text_lt(q, p));
    }
    if text_lt(p, q) {
        let k = choose|k: int|
            0 <= k <= p.len() && k < q.len() && #[trigger] same_before(p, q, k) && (k == p.len()
                || p[k] < q[k]);
        if text_lt(q, p) {
            let l = choose|l: int|
                0 <= l <= q.len() && l < p.len() && #[trigger] same_before(q, p, l) && (l
                    == q.len() || q[l] < p[l]);
            if k < l {
                assert(q[k] == p[k]);
            } else if l < k {
                assert(p[l] == q[l]);
            }
        }
    }
}

/// The order of texts is transitive.
pub proof fn lemma_text_transitive(p: Seq<char>, q: Seq<char>, r: Seq<char>)
    requires
        text_lt(p, q),
        text_lt(q, r),
    ensures
        text_lt(p, r),
{
    let k = choose|k: int|
        0 <= k <= p.len() && k < q.len() && #[trigger] same_before(p, q, k) && (k == p.len()
            || p[k] < q[k]);
    let l = choose|l: int|
        0 <= l <= q.len() && l < r.len() && #[trigger] same_before(q, r, l) && (l == q.len()
            || q[l] < r[l]);
    let m = if k < l {
        k
    } else {
        l
    };
    assert forall|j: int| 0 <= j < m implies #[trigger] p[j] == r[j] by {
        assert(p[j] == q[j]);
        assert(q[j] == r[j]);
    }
    if k < l {
        assert(q[k] == r[k]);
    } else if l < k {
        assert(p[l] == q[l]);
    }
    assert(same_before(p, r, m) && (m == p.len() || p[m] < r[m]));
}

/// Of two versions exactly one holds: the first is older, they are of the
/// same rank, or the second is older.
pub proof fn law_trichotomy(x: VersionView, y: VersionView)
    ensures
        version_lt(x, y) || version_equiv(x, y) || version_lt(y, x),
        !(version_lt(x, y) && version_equiv(x, y)),
        !(version_lt(y, x) && version_equiv(x, y)),
        !(version_lt(x, y) && version_lt(y, x)),
{
    lemma_numeric_trichotomy(x.components, y.components);
    lemma_numeric_eq(x.components, y.components, x.components);
    match (x.snapshot, y.snapshot) {
        (Some(p), Some(q)) => {
            lemma_text_trichotomy(p, q);
        },
        _ => {},
    }
}

/// Where `x` is older than `y` and `y` is older than `z`, `x` is older than
/// `z`.
pub proof fn law_transitive(x: VersionView, y: VersionView, z: VersionView)
    requires
        version_lt(x, y),
        version_lt(y, z),
    ensures
        version_lt(x, z),
{
    lemma_numeric_lt(x.components, y.components, z.components);
    lemma_numeric_eq(x.components, y.components, z.components);
    if numeric_eq(x.components, y.components) && numeric_eq(y.components, z.components) {
        match (x.snapshot, y.snapshot, z.snapshot) {
            (Some(p), Some(q), Some(r)) => {
                lemma_text_transitive(p, q, r);
            },
            _ => {},
        }
    }
}

/// Being of the same rank is reflexive, symmetric and transitive, and a
/// version is older or newer than all versions of one rank alike.
pub proof fn law_same_rank(x: VersionView, y: VersionView, z: VersionView)
    ensures
        version_equiv(x, x),
        version_equiv(x, y) ==> version_equiv(y, x),
        version_equiv(x, y) && version_equiv(y, z) ==> version_equiv(x, z),
        version_equiv(x, y) && version_lt(y, z) ==> version_lt(x, z),
        version_lt(x, y) && version_equiv(y, z) ==> version_lt(x, z),
{
    lemma_numeric_eq(x.components, y.components, z.components);
    lemma_numeric_lt(x.components, y.components, z.components);
}

/// The component at position `i`, 0 past the end.
pub(crate) fn component_at(components: &Vec<u32>, i: usize) -> (c: u32)
    ensures
        c == component(components@, i as int),
{
    if i < components.len() {
        components[i]
    } else {
        0
    }
}

/// The first position at which `a` and `b` hold different components, if
/// there is one.
pub(crate) fn first_difference(a: &Vec<u32>, b: &Vec<u32>) -> (at: Option<usize>)
    ensures
        match at {
            Some(i) => agree_before(a@, b@, i as int) && component(a@, i as int) != component(
                b@,
                i as int,
            ),
            None => numeric_eq(a@, b@),
        },
{
    let n: usize = if a.len() > b.len() {
        a.len()
    } else {
        b.len()
    };
    let mut i: usize = 0;
    while i < n
        invariant
            i <= n,
            a.len() <= n,
            b.len() <= n,
            agree_before(a@, b@, i as int),
        decreases n - i,
    {
        if component_at(a, i) != component_at(b, i) {
            return Some(i);
        }
        i += 1;
    }
    None
}

/// The length of the longest common prefix of `p` and `q`.
pub(crate) fn common_prefix(p: &Vec<char>, q: &Vec<char>) -> (k: usize)
    ensures
        k <= p.len(),
        k <= q.len(),
        same_before(p@, q@, k as int),
        k == p.len() || k == q.len() || p@[k as int] != q@[k as int],
{
    let mut k: usize = 0;
    while k < p.len() && k < q.len() && p[k] == q[k]
        invariant
            k <= p.len(),
            k <= q.len(),
            same_before(p@, q@, k as int),
        decreases p.len() - k,
    {
        k += 1;
    }
    k
}

/// Whether `a` and `b` hold the same components, position by position.
pub(crate) fn same_components(a: &Vec<u32>, b: &Vec<u32>) -> (same: bool)
    ensures
        same == (a@ == b@),
{
    if a.len() != b.len() {
        return false;
    }
    let mut i: usize = 0;
    while i < a.len()
        invariant
            i <= a.len(),
            a.len() == b.len(),
            forall|j: int| 0 <= j < i ==> a@[j] == b@[j],
        decreases a.len() - i,
    {
        if a[i] != b[i] {
            return false;
        }
        i += 1;
    }
    assert(a@ =~= b@);
    true
}

/// What the first difference between the components says of two versions.
pub proof fn lemma_difference_decides(x: VersionView, y: VersionView, at: usize)
    requires
        agree_before(x.components, y.components, at as int),
    ensures
        component(x.components, at as int) < component(y.components, at as int) ==> version_lt(
            x,
            y,
        ) && !version_lt(y, x),
        component(x.components, at as int) > component(y.components, at as int) ==> version_lt(
            y,
            x,
        ) && !version_lt(x, y),
{
    assert forall|j: int| 0 <= j < at implies #[trigger] component(y.components, j) == component(
        x.components,
        j,
    ) by {
        assert(component(x.components, j) == component(y.components, j));
    }
    assert(agree_before(y.components, x.components, at as int));
    law_trichotomy(x, y);
}

/// What the longest common prefix of two qualifiers says of two versions
/// with the same numbers.
pub proof fn lemma_prefix_decides(x: VersionView, y: VersionView, k: usize)
    requires
        numeric_eq(x.components, y.components),
        x.snapshot is Some,
        y.snapshot is Some,
        k <= x.snapshot.unwrap().len(),
        k <= y.snapshot.unwrap().len(),
        same_before(x.snapshot.unwrap(), y.snapshot.unwrap(), k as int),
    ensures
        ({
            let p = x.snapshot.unwrap();
            let q = y.snapshot.unwrap();
            &&& k == p.len() && k == q.len() ==> version_equiv(x, y)
            &&& k == p.len() && k < q.len() ==> version_lt(x, y)
            &&& k < p.len() && k == q.len() ==> version_lt(y, x)
            &&& k < p.len() && k < q.len() && p[k as int] < q[k as int] ==> version_lt(x, y)
            &&& k < p.len() && k < q.len() && p[k as int] > q[k as int] ==> version_lt(y, x)
        }),
{
    let p = x.snapshot.unwrap();
    let q = y.snapshot.unwrap();
    lemma_numeric_eq(x.components, y.components, x.components);
    assert forall|j: int| 0 <= j < k implies #[trigger] q[j] == p[j] by {
        assert(p[j] == q[j]);
    }
    assert(same_before(q, p, k as int));
    if k == p.len() && k == q.len() {
        assert(p =~= q);
    }
}

} // verus!
