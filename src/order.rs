//! The start order of one bucket of applications: every application after
//! the applications it depends on, otherwise in bucket order.

use crate::execution_manifest::{ExecutionManifest, ExecutionManifestView, manifest_views};
use crate::text::{contains_text, dot_head, head_before_dot, join_comma, join_with_comma, texts};
use vstd::prelude::*;
use vstd::set_lib::{lemma_int_range, lemma_len_subset, lemma_subset_equality, set_int_range};

verus! {

broadcast use vstd::seq_lib::seq_to_set_is_finite;

/// Why a bucket of applications cannot be ordered.
#[derive(Debug)]
pub enum GroupingError {
    NoDependencyApps(String, String),
    CircularDependency(String),
}

impl GroupingError {
    /// The message that describes the error.
    pub fn to_string(&self) -> (r: String)
        ensures
            r@ == match self {
                GroupingError::NoDependencyApps(a, d) => "No dependency application : "@ + d@ + " for "@ + a@ + ""@,
                GroupingError::CircularDependency(a) => "Circular dependency : "@ + a@ + ""@,
            },
    {
        match self {
            GroupingError::NoDependencyApps(a, d) => crate::text::concat5("No dependency application : ", d.as_str(), " for ", a.as_str(), ""),
            GroupingError::CircularDependency(a) => crate::text::concat3("Circular dependency : ", a.as_str(), ""),
        }
    }
}

/// A [`GroupingError`] with its texts as characters.
pub enum GroupingErrorView {
    NoDependencyApps(Seq<char>, Seq<char>),
    CircularDependency(Seq<char>),
}

impl View for GroupingError {
    type V = GroupingErrorView;

    open spec fn view(&self) -> GroupingErrorView {
        match self {
            GroupingError::NoDependencyApps(a, d) => GroupingErrorView::NoDependencyApps(a@, d@),
            GroupingError::CircularDependency(a) => GroupingErrorView::CircularDependency(a@),
        }
    }
}

/// The names of the applications that `a` depends on.
pub open spec fn dependency_names(a: ExecutionManifestView) -> Seq<Seq<char>> {
    a.app_dependency.map_values(|d: Seq<char>| dot_head(d))
}

/// In bucket `l`, the application at `i` depends on the one at `j`.
pub open spec fn depends_on(l: Seq<ExecutionManifestView>, i: int, j: int) -> bool {
    &&& 0 <= i < l.len()
    &&& 0 <= j < l.len()
    &&& i != j
    &&& dependency_names(l[i]).contains(l[j].name)
}

/// The application at `i` declares dependencies, yet none of them is in bucket `l`.
pub open spec fn lacks_dependency(l: Seq<ExecutionManifestView>, i: int) -> bool {
    &&& l[i].app_dependency.len() > 0
    &&& forall|j: int| !depends_on(l, i, j)
}

/// `i` is the first position in `l` whose application lacks its dependencies.
pub open spec fn is_first_lacking(l: Seq<ExecutionManifestView>, i: int) -> bool {
    &&& 0 <= i < l.len()
    &&& lacks_dependency(l, i)
    &&& forall|k: int| 0 <= k < i ==> !lacks_dependency(l, k)
}

/// `r` lists each position below `n` exactly once.
pub open spec fn is_permutation(r: Seq<int>, n: int) -> bool {
    &&& r.len() == n
    &&& r.no_duplicates()
    &&& forall|k: int| 0 <= k < r.len() ==> 0 <= #[trigger] r[k] < n
}

/// Every application in `r` comes after the applications it depends on.
pub open spec fn respects_dependencies(l: Seq<ExecutionManifestView>, r: Seq<int>) -> bool {
    forall|k: int, j: int| 0 <= k < r.len() && #[trigger] depends_on(l, r[k], j) ==> r.take(k).contains(j)
}

/// All that the application at `j` depends on is among `placed`.
pub open spec fn is_ready(l: Seq<ExecutionManifestView>, placed: Seq<int>, j: int) -> bool {
    forall|t: int| #[trigger] depends_on(l, j, t) ==> placed.contains(t)
}

/// Each step of `r` takes the earliest application that is ready.
pub open spec fn picks_earliest(l: Seq<ExecutionManifestView>, r: Seq<int>) -> bool {
    forall|k: int, j: int|
        0 <= k < r.len() && 0 <= j < l.len() && !r.take(k).contains(j) && #[trigger] is_ready(l, r.take(k), j)
            ==> r[k] <= j
}

/// `r` is the start order of bucket `l`: dependencies first, and otherwise the
/// order of `l`.
pub open spec fn is_start_order(l: Seq<ExecutionManifestView>, r: Seq<int>) -> bool {
    &&& is_permutation(r, l.len() as int)
    &&& respects_dependencies(l, r)
    &&& picks_earliest(l, r)
}

/// Some order of `l` puts every application after those it depends on.
pub open spec fn has_dependency_order(l: Seq<ExecutionManifestView>) -> bool {
    exists|r: Seq<int>| is_permutation(r, l.len() as int) && respects_dependencies(l, r)
}

/// The applications of `l` in the order `r`, or in its reverse when `off`.
pub open spec fn arranged(l: Seq<ExecutionManifestView>, r: Seq<int>, off: bool) -> Seq<ExecutionManifestView> {
    Seq::new(r.len(), |k: int| if off { l[r[r.len() - 1 - k]] } else { l[r[k]] })
}

/// The positions held in `v`.
pub open spec fn positions(v: Seq<usize>) -> Seq<int> {
    v.map_values(|x: usize| x as int)
}

proof fn lemma_distinct_positions(r: Seq<int>, n: int)
    requires
        0 <= n,
        r.no_duplicates(),
        forall|k: int| 0 <= k < r.len() ==> 0 <= #[trigger] r[k] < n,
    ensures
        r.len() <= n,
        r.len() == n ==> forall|j: int| 0 <= j < n ==> r.contains(j),
        r.len() < n ==> exists|j: int| 0 <= j < n && !r.contains(j),
{
    r.unique_seq_to_set();
    lemma_int_range(0, n);
    assert forall|x: int| r.to_set().contains(x) implies set_int_range(0, n).contains(x) by {
        let k = choose|k: int| 0 <= k < r.len() && r[k] == x;
    }
    lemma_len_subset(r.to_set(), set_int_range(0, n));
    if r.len() == n {
        lemma_subset_equality(r.to_set(), set_int_range(0, n));
        assert forall|j: int| 0 <= j < n implies r.contains(j) by {
            assert(set_int_range(0, n).contains(j));
            assert(r.to_set().contains(j));
        }
    }
    if r.len() < n {
        if forall|j: int| 0 <= j < n ==> r.contains(j) {
            assert(set_int_range(0, n).subset_of(r.to_set()));
            lemma_len_subset(set_int_range(0, n), r.to_set());
        }
    }
}

proof fn lemma_first_outside(r: Seq<int>, placed: Seq<int>, k: int) -> (m: int)
    requires
        0 <= k < r.len(),
        !placed.contains(r[k]),
    ensures
        0 <= m <= k,
        !placed.contains(r[m]),
        forall|i: int| 0 <= i < m ==> placed.contains(#[trigger] r[i]),
    decreases k,
{
    if exists|i: int| 0 <= i < k && !placed.contains(r[i]) {
        let i = choose|i: int| 0 <= i < k && !placed.contains(r[i]);
        lemma_first_outside(r, placed, i)
    } else {
        k
    }
}

/// When no unplaced application is ready, no order respects the dependencies.
proof fn lemma_stuck(l: Seq<ExecutionManifestView>, placed: Seq<int>, u: int)
    requires
        0 <= u < l.len(),
        !placed.contains(u),
        forall|j: int| 0 <= j < l.len() && !placed.contains(j) ==> !is_ready(l, placed, j),
    ensures
        !has_dependency_order(l),
{
    if has_dependency_order(l) {
        let r = choose|r: Seq<int>| is_permutation(r, l.len() as int) && respects_dependencies(l, r);
        lemma_distinct_positions(r, l.len() as int);
        assert(r.contains(u));
        let k = choose|k: int| 0 <= k < r.len() && r[k] == u;
        let m = lemma_first_outside(r, placed, k);
        let j = r[m];
        assert(!is_ready(l, placed, j));
        let t = choose|t: int| depends_on(l, j, t) && !placed.contains(t);
        assert(r.take(m).contains(t));
        let i = choose|i: int| 0 <= i < m && r.take(m)[i] == t;
        assert(placed.contains(r[i]));
    }
}

proof fn lemma_start_orders_agree_upto(l: Seq<ExecutionManifestView>, r1: Seq<int>, r2: Seq<int>, k: int)
    requires
        is_start_order(l, r1),
        is_start_order(l, r2),
        0 <= k <= l.len(),
    ensures
        r1.take(k) == r2.take(k),
    decreases k,
{
    if k > 0 {
        let p = k - 1;
        lemma_start_orders_agree_upto(l, r1, r2, p);
        let placed = r1.take(p);
        assert forall|t: int| #[trigger] depends_on(l, r1[p], t) implies placed.contains(t) by {}
        assert forall|t: int| #[trigger] depends_on(l, r2[p], t) implies placed.contains(t) by {
            assert(r2.take(p).contains(t));
        }
        assert(is_ready(l, r1.take(p), r2[p]));
        assert(is_ready(l, r2.take(p), r1[p]));
        assert(!r1.take(p).contains(r1[p])) by {
            if r1.take(p).contains(r1[p]) {
                let i = choose|i: int| 0 <= i < p && r1.take(p)[i] == r1[p];
                assert(r1[i] == r1[p]);
            }
        }
        assert(!r2.take(p).contains(r2[p])) by {
            if r2.take(p).contains(r2[p]) {
                let i = choose|i: int| 0 <= i < p && r2.take(p)[i] == r2[p];
                assert(r2[i] == r2[p]);
            }
        }
        assert(r1[p] <= r2[p]);
        assert(r2[p] <= r1[p]);
        assert(r1.take(k) =~= r1.take(p).push(r1[p]));
        assert(r2.take(k) =~= r2.take(p).push(r2[p]));
    }
}

/// A bucket has at most one start order.
pub proof fn lemma_start_order_unique(l: Seq<ExecutionManifestView>, r1: Seq<int>, r2: Seq<int>)
    requires
        is_start_order(l, r1),
        is_start_order(l, r2),
    ensures
        r1 == r2,
{
    lemma_start_orders_agree_upto(l, r1, r2, l.len() as int);
    assert(r1.take(l.len() as int) =~= r1);
    assert(r2.take(l.len() as int) =~= r2);
}

fn dependency_heads(a: &ExecutionManifest) -> (r: Vec<String>)
    ensures
        texts(r@) == dependency_names(a@),
{
    let mut r: Vec<String> = Vec::new();
    let mut i: usize = 0;
    while i < a.app_dependency.len()
        invariant
            i <= a.app_dependency@.len(),
            texts(r@) == dependency_names(a@).take(i as int),
        decreases a.app_dependency@.len() - i,
    {
        let head = head_before_dot(a.app_dependency[i].as_str());
        assert(a@.app_dependency[i as int] == a.app_dependency@[i as int]@);
        assert(dependency_names(a@)[i as int] == head@);
        let ghost before = r@;
        r.push(head);
        assert(texts(r@) =~= texts(before).push(head@));
        assert(dependency_names(a@).take(i + 1) =~= dependency_names(a@).take(i as int).push(head@));
        i = i + 1;
    }
    assert(dependency_names(a@).take(i as int) =~= dependency_names(a@));
    r
}

/// The dependency relation of bucket `l` as a matrix.
pub open spec fn is_dependency_matrix(l: Seq<ExecutionManifestView>, adj: Seq<Vec<bool>>) -> bool {
    &&& adj.len() == l.len()
    &&& forall|i: int| 0 <= i < adj.len() ==> (#[trigger] adj[i])@.len() == l.len()
    &&& forall|i: int, j: int| 0 <= i < l.len() && 0 <= j < l.len() ==> (adj[i]@[j] <==> depends_on(l, i, j))
}

fn dependency_matrix(list: &Vec<ExecutionManifest>) -> (adj: Vec<Vec<bool>>)
    ensures
        is_dependency_matrix(manifest_views(list@), adj@),
{
    let ghost l = manifest_views(list@);
    let n = list.len();
    let mut adj: Vec<Vec<bool>> = Vec::new();
    let mut i: usize = 0;
    while i < n
        invariant
            n == l.len(),
            l == manifest_views(list@),
            i <= n,
            adj@.len() == i,
            forall|a: int| 0 <= a < i ==> (#[trigger] adj@[a])@.len() == n,
            forall|a: int, b: int| 0 <= a < i && 0 <= b < n ==> (adj@[a]@[b] <==> depends_on(l, a, b)),
        decreases n - i,
    {
        let heads = dependency_heads(&list[i]);
        let mut row: Vec<bool> = Vec::new();
        let mut j: usize = 0;
        while j < n
            invariant
                n == l.len(),
                l == manifest_views(list@),
                i < n,
                j <= n,
                texts(heads@) == dependency_names(l[i as int]),
                row@.len() == j,
                forall|b: int| 0 <= b < j ==> (row@[b] <==> depends_on(l, i as int, b)),
            decreases n - j,
        {
            let edge = i != j && contains_text(&heads, list[j].name.as_str());
            row.push(edge);
            j = j + 1;
        }
        adj.push(row);
        i = i + 1;
    }
    adj
}

fn has_target(row: &Vec<bool>) -> (r: bool)
    ensures
        r == exists|j: int| 0 <= j < row@.len() && row@[j],
{
    let mut j: usize = 0;
    while j < row.len()
        invariant
            j <= row@.len(),
            forall|b: int| 0 <= b < j ==> !row@[b],
        decreases row@.len() - j,
    {
        if row[j] {
            return true;
        }
        j = j + 1;
    }
    false
}

fn all_placed(row: &Vec<bool>, placed: &Vec<bool>) -> (r: bool)
    requires
        row@.len() == placed@.len(),
    ensures
        r == forall|t: int| 0 <= t < row@.len() && row@[t] ==> placed@[t],
{
    let mut t: usize = 0;
    while t < row.len()
        invariant
            row@.len() == placed@.len(),
            t <= row@.len(),
            forall|b: int| 0 <= b < t && row@[b] ==> placed@[b],
        decreases row@.len() - t,
    {
        if row[t] && !placed[t] {
            return false;
        }
        t = t + 1;
    }
    true
}

/// No application of `l` lacks its dependencies, and some order of `l`
/// respects them all.
pub open spec fn bucket_orderable(l: Seq<ExecutionManifestView>) -> bool {
    &&& forall|i: int| 0 <= i < l.len() ==> !lacks_dependency(l, i)
    &&& has_dependency_order(l)
}

/// What ordering bucket `l` gives: its start order (reversed when `off`), or
/// the reason it has none.
pub open spec fn ordering_result(
    l: Seq<ExecutionManifestView>,
    off: bool,
    r: Result<Seq<ExecutionManifestView>, GroupingErrorView>,
) -> bool {
    if exists|i: int| is_first_lacking(l, i) {
        exists|i: int|
            is_first_lacking(l, i) && r == Err::<Seq<ExecutionManifestView>, GroupingErrorView>(
                GroupingErrorView::NoDependencyApps(l[i].name, join_comma(l[i].app_dependency)),
            )
    } else if has_dependency_order(l) {
        exists|ord: Seq<int>| is_start_order(l, ord) && r == Ok::<Seq<ExecutionManifestView>, GroupingErrorView>(arranged(l, ord, off))
    } else {
        exists|i: int|
            0 <= i < l.len() && r == Err::<Seq<ExecutionManifestView>, GroupingErrorView>(
                GroupingErrorView::CircularDependency(l[i].name),
            )
    }
}

/// The views of an ordering result.
pub open spec fn result_view(r: Result<Vec<ExecutionManifest>, GroupingError>) -> Result<Seq<ExecutionManifestView>, GroupingErrorView> {
    match r {
        Ok(v) => Ok(manifest_views(v@)),
        Err(e) => Err(e@),
    }
}

pub proof fn lemma_first_lacking_exists(l: Seq<ExecutionManifestView>, i: int)
    requires
        0 <= i < l.len(),
        lacks_dependency(l, i),
    ensures
        exists|k: int| is_first_lacking(l, k),
    decreases i,
{
    if exists|k: int| 0 <= k < i && lacks_dependency(l, k) {
        let k = choose|k: int| 0 <= k < i && lacks_dependency(l, k);
        lemma_first_lacking_exists(l, k);
    } else {
        assert(is_first_lacking(l, i));
    }
}

/// Placing the earliest ready application keeps the partial order a valid
/// prefix of the start order.
proof fn lemma_place_next(l: Seq<ExecutionManifestView>, ord: Seq<int>, placed: Seq<bool>, now: Seq<int>, p: int)
    requires
        placed.len() == l.len(),
        0 <= p < l.len(),
        now == ord.push(p),
        placed[p],
        !ord.contains(p),
        forall|b: int| 0 <= b < l.len() && b != p ==> (placed[b] <==> ord.contains(b)),
        ord.no_duplicates(),
        forall|k: int| 0 <= k < ord.len() ==> 0 <= #[trigger] ord[k] < l.len(),
        respects_dependencies(l, ord),
        picks_earliest(l, ord),
        is_ready(l, ord, p),
        forall|b: int| 0 <= b < p ==> ord.contains(b) || !is_ready(l, ord, b),
    ensures
        forall|b: int| 0 <= b < l.len() ==> (placed[b] <==> now.contains(b)),
        now.no_duplicates(),
        forall|k: int| 0 <= k < now.len() ==> 0 <= #[trigger] now[k] < l.len(),
        respects_dependencies(l, now),
        picks_earliest(l, now),
{
    assert(now.take(ord.len() as int) =~= ord);
    assert forall|k: int| 0 <= k < ord.len() implies #[trigger] now.take(k) == ord.take(k) by {
        assert(now.take(k) =~= ord.take(k));
    }
    assert forall|b: int| 0 <= b < l.len() implies (placed[b] <==> now.contains(b)) by {
        if b == p {
            assert(now[ord.len() as int] == b);
        } else if now.contains(b) {
            let k = choose|k: int| 0 <= k < now.len() && now[k] == b;
            assert(ord[k] == b);
        } else {
            if ord.contains(b) {
                let k = choose|k: int| 0 <= k < ord.len() && ord[k] == b;
                assert(now[k] == b);
            }
        }
    }
    assert forall|a: int, c: int| 0 <= a < now.len() && 0 <= c < now.len() && a != c implies now[a] != now[c] by {
        if a < ord.len() && c < ord.len() {
            assert(ord[a] != ord[c]);
        } else if a < ord.len() {
            assert(ord.contains(now[a]));
        } else {
            assert(ord.contains(now[c]));
        }
    }
    assert forall|k: int, t: int| 0 <= k < now.len() && #[trigger] depends_on(l, now[k], t) implies now.take(k).contains(t) by {
        if k < ord.len() {
            assert(ord.take(k).contains(t));
        }
    }
    assert forall|k: int, b: int|
        0 <= k < now.len() && 0 <= b < l.len() && !now.take(k).contains(b) && #[trigger] is_ready(l, now.take(k), b)
        implies now[k] <= b by {
        if k < ord.len() {
            assert(is_ready(l, ord.take(k), b));
        } else {
            assert(is_ready(l, ord, b));
        }
    }
}

/// Orders one bucket: every application after the applications it depends
/// on, ties kept in bucket order; reversed when `off`. Fails when an
/// application with dependencies finds none of them in the bucket, or when
/// the dependencies form a cycle.
#[verifier::rlimit(40)]
pub fn order_applications(list: &Vec<ExecutionManifest>, off: bool) -> (r: Result<Vec<ExecutionManifest>, GroupingError>)
    ensures
        ordering_result(manifest_views(list@), off, result_view(r)),
{
    let ghost l = manifest_views(list@);
    let n = list.len();
    let adj = dependency_matrix(list);
    let mut i: usize = 0;
    while i < n
        invariant
            n == l.len(),
            l == manifest_views(list@),
            is_dependency_matrix(l, adj@),
            i <= n,
            forall|k: int| 0 <= k < i ==> !lacks_dependency(l, k),
        decreases n - i,
    {
        assert(l[i as int].app_dependency.len() == list@[i as int].app_dependency@.len());
        if list[i].app_dependency.len() > 0 && !has_target(&adj[i]) {
            assert(lacks_dependency(l, i as int));
            assert(is_first_lacking(l, i as int));
            let r = Err(GroupingError::NoDependencyApps(list[i].name.clone(), join_with_comma(&list[i].app_dependency)));
            assert(result_view(r) == Err::<Seq<ExecutionManifestView>, GroupingErrorView>(
                GroupingErrorView::NoDependencyApps(l[i as int].name, join_comma(l[i as int].app_dependency))));
            return r;
        }
        proof {
            if lacks_dependency(l, i as int) {
                let j = choose|j: int| 0 <= j < n && adj@[i as int]@[j];
                assert(depends_on(l, i as int, j));
            }
        }
        i = i + 1;
    }
    proof {
        if exists|k: int| is_first_lacking(l, k) {
            let k = choose|k: int| is_first_lacking(l, k);
            assert(!lacks_dependency(l, k));
        }
    }
    let mut placed: Vec<bool> = Vec::new();
    let mut z: usize = 0;
    while z < n
        invariant
            z <= n,
            placed@.len() == z,
            forall|b: int| 0 <= b < z ==> !placed@[b],
        decreases n - z,
    {
        placed.push(false);
        z = z + 1;
    }
    let mut order: Vec<usize> = Vec::new();
    while order.len() < n
        invariant
            n == l.len(),
            l == manifest_views(list@),
            is_dependency_matrix(l, adj@),
            !exists|k: int| is_first_lacking(l, k),
            placed@.len() == n,
            order@.len() <= n,
            forall|j: int| 0 <= j < n ==> (placed@[j] <==> positions(order@).contains(j)),
            positions(order@).no_duplicates(),
            forall|k: int| 0 <= k < order@.len() ==> 0 <= #[trigger] positions(order@)[k] < n,
            respects_dependencies(l, positions(order@)),
            picks_earliest(l, positions(order@)),
        decreases n - order@.len(),
    {
        let ghost ord = positions(order@);
        let mut pick: Option<usize> = None;
        let mut first_left: Option<usize> = None;
        let mut j: usize = 0;
        while j < n && pick.is_none()
            invariant
                n == l.len(),
                is_dependency_matrix(l, adj@),
                placed@.len() == n,
                ord == positions(order@),
                forall|b: int| 0 <= b < n ==> (placed@[b] <==> ord.contains(b)),
                j <= n,
                match pick {
                    Some(p) => p < n && !placed@[p as int] && is_ready(l, ord, p as int)
                        && forall|b: int| 0 <= b < p ==> placed@[b] || !is_ready(l, ord, b),
                    None => forall|b: int| 0 <= b < j ==> placed@[b] || !is_ready(l, ord, b),
                },
                forall|k: int| 0 <= k < ord.len() ==> 0 <= #[trigger] ord[k] < n,
                match first_left {
                    Some(f) => f < n && !placed@[f as int],
                    None => forall|b: int| 0 <= b < j ==> placed@[b],
                },
            decreases n - j,
        {
            if !placed[j] {
                if first_left.is_none() {
                    first_left = Some(j);
                }
                let ready = all_placed(&adj[j], &placed);
                proof {
                    if ready {
                        assert forall|t: int| #[trigger] depends_on(l, j as int, t) implies ord.contains(t) by {
                            assert(adj@[j as int]@[t]);
                        }
                    } else {
                        let t = choose|t: int| 0 <= t < n && adj@[j as int]@[t] && !placed@[t];
                        assert(depends_on(l, j as int, t));
                    }
                }
                if ready {
                    pick = Some(j);
                }
            }
            j = j + 1;
        }
        match pick {
            Some(p) => {
                placed.set(p, true);
                order.push(p);
                assert(positions(order@) =~= ord.push(p as int));
                proof {
                    lemma_place_next(l, ord, placed@, positions(order@), p as int);
                }
            },
            None => {
                proof {
                    lemma_distinct_positions(ord, n as int);
                    let u = choose|u: int| 0 <= u < n && !ord.contains(u);
                    assert(!placed@[u]);
                    lemma_stuck(l, ord, u);
                }
                let f = first_left.unwrap();
                return Err(GroupingError::CircularDependency(list[f].name.clone()));
            },
        }
    }
    let ghost ord = positions(order@);
    assert(is_start_order(l, ord));
    assert(has_dependency_order(l));
    let mut out: Vec<ExecutionManifest> = Vec::new();
    let mut k: usize = 0;
    while k < n
        invariant
            n == l.len(),
            l == manifest_views(list@),
            ord == positions(order@),
            order@.len() == n,
            is_permutation(ord, n as int),
            k <= n,
            manifest_views(out@) == arranged(l, ord, off).take(k as int),
        decreases n - k,
    {
        let idx = if off { order[n - 1 - k] } else { order[k] };
        assert(ord[(n - 1 - k) as int] == order@[(n - 1 - k) as int] as int);
        assert(ord[k as int] == order@[k as int] as int);
        assert(idx < n);
        let item = list[idx].clone();
        let ghost before = out@;
        out.push(item);
        assert(manifest_views(out@) =~= manifest_views(before).push(item@));
        assert(arranged(l, ord, off).take(k + 1) =~= arranged(l, ord, off).take(k as int).push(l[idx as int]));
        k = k + 1;
    }
    assert(arranged(l, ord, off).take(n as int) =~= arranged(l, ord, off));
    Ok(out)
}

/// In a start order every application comes after each application of its
/// bucket that it depends on.
pub proof fn lemma_dependency_starts_first(l: Seq<ExecutionManifestView>, r: Seq<int>, a: int, b: int)
    requires
        is_start_order(l, r),
        0 <= a < r.len(),
        0 <= b < r.len(),
        depends_on(l, r[a], r[b]),
    ensures
        b < a,
        arranged(l, r, false)[b] == l[r[b]],
        arranged(l, r, false)[a] == l[r[a]],
{
    assert(r.take(a).contains(r[b]));
    let i = choose|i: int| 0 <= i < a && r.take(a)[i] == r[b];
    assert(r[i] == r[b]);
}

/// The stop order of mode `Off` is the start order reversed.
pub proof fn lemma_stop_order_reverses(l: Seq<ExecutionManifestView>, r: Seq<int>)
    ensures
        arranged(l, r, true) == arranged(l, r, false).reverse(),
{
    assert(arranged(l, r, true) =~= arranged(l, r, false).reverse());
}

} // verus!
