//! Grouping of applications by function-group mode, each group in start
//! order, or in stop order for mode `Off`.

use crate::execution_manifest::{ExecutionManifest, ExecutionManifestView, manifest_views};
use crate::machine_manifest::{FunctionGroupMode, MachineManifest, OFF};
use crate::order::{
    bucket_orderable, is_first_lacking, lacks_dependency, lemma_first_lacking_exists,
    order_applications, ordering_result, result_view, GroupingError, GroupingErrorView,
};
use crate::string_map::{
    first_key_index, has_key, is_first_key, keys_unique, lemma_absent_key, lemma_first_key, value_of,
    StringMap,
};
use crate::text::{names_pair, same_text, split_dot, texts};
use vstd::prelude::*;

verus! {

/// Ordered applications per mode of one function group.
pub type FunctionGroupStateHashMap = StringMap<Vec<ExecutionManifest>>;

/// Ordered applications per function group and mode.
pub type FunctionGroupHashMap = StringMap<FunctionGroupStateHashMap>;

/// How many of `entries` read `g.m`.
pub open spec fn hits(entries: Seq<Seq<char>>, g: Seq<char>, m: Seq<char>) -> nat
    decreases entries.len(),
{
    if entries.len() == 0 {
        0
    } else {
        hits(entries.drop_last(), g, m) + if split_dot(entries.last()) == Some((g, m)) {
            1nat
        } else {
            0nat
        }
    }
}

/// The applications of `apps` that take part in mode `m` of group `g`, in
/// order, each once per mode dependency that names `g.m`.
pub open spec fn bucket_members(apps: Seq<ExecutionManifestView>, g: Seq<char>, m: Seq<char>) -> Seq<ExecutionManifestView>
    decreases apps.len(),
{
    if apps.len() == 0 {
        Seq::empty()
    } else {
        bucket_members(apps.drop_last(), g, m) + Seq::new(hits(apps.last().mode_dependency, g, m), |_i: int| apps.last())
    }
}

/// Collects the applications that take part in mode `m` of group `g`.
pub fn collect_bucket(apps: &Vec<ExecutionManifest>, g: &str, m: &str) -> (r: Vec<ExecutionManifest>)
    ensures
        manifest_views(r@) == bucket_members(manifest_views(apps@), g@, m@),
{
    let ghost views = manifest_views(apps@);
    let mut r: Vec<ExecutionManifest> = Vec::new();
    let mut k: usize = 0;
    assert(views.take(0) =~= Seq::<ExecutionManifestView>::empty());
    while k < apps.len()
        invariant
            views == manifest_views(apps@),
            k <= apps@.len(),
            manifest_views(r@) == bucket_members(views.take(k as int), g@, m@),
        decreases apps@.len() - k,
    {
        let app = &apps[k];
        let ghost entries = app@.mode_dependency;
        let ghost base = manifest_views(r@);
        let mut e: usize = 0;
        assert(entries.take(0) =~= Seq::<Seq<char>>::empty());
        assert(Seq::new(hits(entries.take(0), g@, m@), |_i: int| app@) =~= Seq::<ExecutionManifestView>::empty());
        assert(base + Seq::<ExecutionManifestView>::empty() =~= base);
        while e < app.mode_dependency.len()
            invariant
                entries == app@.mode_dependency,
                e <= entries.len(),
                manifest_views(r@) == base + Seq::new(hits(entries.take(e as int), g@, m@), |_i: int| app@),
            decreases entries.len() - e,
        {
            assert(entries.take(e + 1).drop_last() =~= entries.take(e as int));
            assert(entries[e as int] == app.mode_dependency@[e as int]@);
            if names_pair(app.mode_dependency[e].as_str(), g, m) {
                let item = app.clone();
                let ghost before = manifest_views(r@);
                r.push(item);
                assert(manifest_views(r@) =~= before.push(app@));
                assert(manifest_views(r@) =~= base + Seq::new(hits(entries.take(e + 1), g@, m@), |_i: int| app@));
            } else {
                assert(manifest_views(r@) =~= base + Seq::new(hits(entries.take(e + 1), g@, m@), |_i: int| app@));
            }
            e = e + 1;
        }
        assert(entries.take(e as int) =~= entries);
        assert(views.take(k + 1).drop_last() =~= views.take(k as int));
        assert(views.take(k + 1).last() == app@);
        k = k + 1;
    }
    assert(views.take(k as int) =~= views);
    r
}

/// Group `g` of `groups` declares mode `m`.
pub open spec fn declares_mode(groups: Seq<(Seq<char>, FunctionGroupMode)>, g: Seq<char>, m: Seq<char>) -> bool {
    match value_of(groups, g) {
        Some(fg) => texts(fg.mode@).contains(m),
        None => false,
    }
}

/// The applications that table `t` holds for mode `m` of group `g`.
pub open spec fn table_bucket(
    t: Seq<(Seq<char>, FunctionGroupStateHashMap)>,
    g: Seq<char>,
    m: Seq<char>,
) -> Option<Seq<ExecutionManifestView>> {
    match value_of(t, g) {
        Some(modes) => match value_of(modes@, m) {
            Some(v) => Some(manifest_views(v@)),
            None => None,
        },
        None => None,
    }
}

/// Entry `e` of the modes of group `g` holds its bucket in start order.
pub open spec fn mode_entry_ordered(
    apps: Seq<ExecutionManifestView>,
    g: Seq<char>,
    e: (Seq<char>, Vec<ExecutionManifest>),
) -> bool {
    ordering_result(bucket_members(apps, g, e.0), e.0 == OFF@, Ok(manifest_views(e.1@)))
}

proof fn lemma_ordered_means_orderable(l: Seq<ExecutionManifestView>, off: bool, v: Seq<ExecutionManifestView>)
    requires
        ordering_result(l, off, Ok(v)),
    ensures
        bucket_orderable(l),
{
    assert forall|i: int| 0 <= i < l.len() implies !lacks_dependency(l, i) by {
        if lacks_dependency(l, i) {
            lemma_first_lacking_exists(l, i);
        }
    }
}

proof fn lemma_failed_means_not_orderable(l: Seq<ExecutionManifestView>, off: bool, e: GroupingErrorView)
    requires
        ordering_result(l, off, Err(e)),
    ensures
        !bucket_orderable(l),
{
    if bucket_orderable(l) {
        if exists|i: int| is_first_lacking(l, i) {
            let i = choose|i: int| is_first_lacking(l, i);
            assert(!lacks_dependency(l, i));
        }
    }
}

proof fn lemma_value_at<T>(entries: Seq<(Seq<char>, T)>, a: int)
    requires
        keys_unique(entries),
        0 <= a < entries.len(),
    ensures
        value_of(entries, entries[a].0) == Some(entries[a].1),
{
    assert(is_first_key(entries, entries[a].0, a));
    lemma_first_key(entries, entries[a].0, a);
}

/// Every bucket that `groups` declares can be ordered.
pub open spec fn all_buckets_orderable(
    groups: Seq<(Seq<char>, FunctionGroupMode)>,
    apps: Seq<ExecutionManifestView>,
) -> bool {
    forall|g: Seq<char>, m: Seq<char>| #[trigger] declares_mode(groups, g, m) ==> bucket_orderable(bucket_members(apps, g, m))
}

/// Table `t` holds exactly the declared groups and modes, each bucket in
/// start order, reversed for mode `Off`.
pub open spec fn is_grouping(
    t: Seq<(Seq<char>, FunctionGroupStateHashMap)>,
    groups: Seq<(Seq<char>, FunctionGroupMode)>,
    apps: Seq<ExecutionManifestView>,
) -> bool {
    &&& forall|g: Seq<char>| has_key(t, g) <==> has_key(groups, g)
    &&& forall|g: Seq<char>, m: Seq<char>| #[trigger] table_bucket(t, g, m) is Some <==> declares_mode(groups, g, m)
    &&& forall|g: Seq<char>, m: Seq<char>|
        #[trigger] declares_mode(groups, g, m) ==> ordering_result(
            bucket_members(apps, g, m),
            m == OFF@,
            Ok(table_bucket(t, g, m)->Some_0),
        )
}

/// Builds, for every mode of every function group of the machine manifest,
/// the list of applications that take part in it, in start order (stop order
/// for `Off`). Fails when one of these lists cannot be ordered.
pub fn group(
    machine_manifest: &MachineManifest,
    execution_manifests: &Vec<ExecutionManifest>,
) -> (r: Result<FunctionGroupHashMap, GroupingError>)
    ensures
        r is Ok <==> all_buckets_orderable(machine_manifest.function_group_set@, manifest_views(execution_manifests@)),
        match r {
            Ok(t) => is_grouping(t@, machine_manifest.function_group_set@, manifest_views(execution_manifests@)),
            Err(e) => exists|g: Seq<char>, m: Seq<char>|
                declares_mode(machine_manifest.function_group_set@, g, m) && ordering_result(
                    bucket_members(manifest_views(execution_manifests@), g, m),
                    m == OFF@,
                    Err(e@),
                ),
        },
{
    let ghost apps = manifest_views(execution_manifests@);
    let ghost groups = machine_manifest.function_group_set@;
    let n = machine_manifest.function_group_set.len();
    let mut table: FunctionGroupHashMap = StringMap::new();
    let mut gi: usize = 0;
    while gi < n
        invariant
            apps == manifest_views(execution_manifests@),
            groups == machine_manifest.function_group_set@,
            n == groups.len(),
            keys_unique(groups),
            gi <= n,
            table@.len() == gi,
            forall|a: int| 0 <= a < gi ==> #[trigger] table@[a].0 == groups[a].0,
            forall|a: int, m: Seq<char>| 0 <= a < gi ==> (#[trigger] has_key(table@[a].1@, m) <==> texts(groups[a].1.mode@).contains(m)),
            forall|a: int, idx: int| 0 <= a < gi && 0 <= idx < table@[a].1@.len() ==> mode_entry_ordered(apps, groups[a].0, #[trigger] table@[a].1@[idx]),
            forall|a: int, m: Seq<char>| 0 <= a < gi && #[trigger] texts(groups[a].1.mode@).contains(m) ==> bucket_orderable(bucket_members(apps, groups[a].0, m)),
        decreases n - gi,
    {
        let name = machine_manifest.function_group_set.key_at(gi);
        let fg = machine_manifest.function_group_set.value_at(gi);
        let ghost g = name@;
        let ghost modes_of = texts(fg.mode@);
        let mut modes: FunctionGroupStateHashMap = StringMap::new();
        let mut mi: usize = 0;
        while mi < fg.mode.len()
            invariant
                apps == manifest_views(execution_manifests@),
                groups == machine_manifest.function_group_set@,
                keys_unique(groups),
                gi < n,
                n == groups.len(),
                g == groups[gi as int].0,
                name@ == g,
                *fg == groups[gi as int].1,
                modes_of == texts(fg.mode@),
                mi <= modes_of.len(),
                forall|m: Seq<char>| has_key(modes@, m) <==> modes_of.take(mi as int).contains(m),
                forall|idx: int| 0 <= idx < modes@.len() ==> mode_entry_ordered(apps, g, #[trigger] modes@[idx]),
                forall|m: Seq<char>| #[trigger] modes_of.take(mi as int).contains(m) ==> bucket_orderable(bucket_members(apps, g, m)),
            decreases modes_of.len() - mi,
        {
            let mode = &fg.mode[mi];
            assert(modes_of[mi as int] == mode@);
            let bucket = collect_bucket(execution_manifests, name.as_str(), mode.as_str());
            let off = same_text(mode.as_str(), OFF);
            let res = order_applications(&bucket, off);
            assert(manifest_views(bucket@) == bucket_members(apps, g, mode@));
            assert(off == (mode@ == OFF@));
            match res {
                Ok(ordered) => {
                    assert(result_view(res) == Ok::<Seq<ExecutionManifestView>, GroupingErrorView>(manifest_views(ordered@)));
                    proof {
                        lemma_ordered_means_orderable(bucket_members(apps, g, mode@), off, manifest_views(ordered@));
                    }
                    let ghost before = modes@;
                    assert(mode_entry_ordered(apps, g, (mode@, ordered)));
                    modes.insert(mode.clone(), ordered);
                    proof {
                        lemma_modes_insert(before, modes@, mode@, ordered, modes_of.take(mi as int), apps, g);
                        let next = modes_of.take(mi + 1);
                        assert(next =~= modes_of.take(mi as int).push(mode@));
                        assert forall|m: Seq<char>| #[trigger] next.contains(m) implies bucket_orderable(bucket_members(apps, g, m)) by {
                            if m != mode@ {
                                let j = choose|j: int| 0 <= j < mi + 1 && next[j] == m;
                                assert(modes_of.take(mi as int)[j] == m);
                                assert(modes_of.take(mi as int).contains(m));
                            }
                        }
                    }
                },
                Err(e) => {
                    assert(result_view(res) == Err::<Seq<ExecutionManifestView>, GroupingErrorView>(e@));
                    proof {
                        lemma_failed_means_not_orderable(bucket_members(apps, g, mode@), off, e@);
                        lemma_value_at(groups, gi as int);
                        assert(declares_mode(groups, g, mode@));
                    }
                    return Err(e);
                },
            }
            mi = mi + 1;
        }
        assert(modes_of.take(mi as int) =~= modes_of);
        let ghost before = table@;
        proof {
            assert forall|a: int| 0 <= a < before.len() implies before[a].0 != g by {
                assert(groups[a].0 != groups[gi as int].0);
            }
        }
        table.insert(name.clone(), modes);
        assert(table@ =~= before.push((g, modes))) by {
            if has_key(before, g) {
                let a = choose|a: int| 0 <= a < before.len() && before[a].0 == g;
                assert(before[a].0 != g);
            }
        }
        gi = gi + 1;
    }
    proof {
        lemma_table_is_grouping(table@, groups, apps);
    }
    Ok(table)
}

proof fn lemma_table_is_grouping(
    t: Seq<(Seq<char>, FunctionGroupStateHashMap)>,
    groups: Seq<(Seq<char>, FunctionGroupMode)>,
    apps: Seq<ExecutionManifestView>,
)
    requires
        keys_unique(groups),
        t.len() == groups.len(),
        forall|a: int| 0 <= a < t.len() ==> #[trigger] t[a].0 == groups[a].0,
        forall|a: int, m: Seq<char>| 0 <= a < t.len() ==> (#[trigger] has_key(t[a].1@, m) <==> texts(groups[a].1.mode@).contains(m)),
        forall|a: int, idx: int| 0 <= a < t.len() && 0 <= idx < t[a].1@.len() ==> mode_entry_ordered(apps, groups[a].0, #[trigger] t[a].1@[idx]),
        forall|a: int, m: Seq<char>| 0 <= a < t.len() && #[trigger] texts(groups[a].1.mode@).contains(m) ==> bucket_orderable(bucket_members(apps, groups[a].0, m)),
    ensures
        is_grouping(t, groups, apps),
        all_buckets_orderable(groups, apps),
{
    assert(keys_unique(t)) by {
        assert forall|i: int, j: int| 0 <= i < t.len() && 0 <= j < t.len() && i != j implies t[i].0 != t[j].0 by {
            assert(groups[i].0 != groups[j].0);
        }
    }
    assert forall|g: Seq<char>| has_key(t, g) <==> has_key(groups, g) by {
        if has_key(t, g) {
            let a = choose|a: int| 0 <= a < t.len() && t[a].0 == g;
            assert(groups[a].0 == g);
        }
        if has_key(groups, g) {
            let a = choose|a: int| 0 <= a < groups.len() && groups[a].0 == g;
            assert(t[a].0 == g);
        }
    }
    assert forall|g: Seq<char>, m: Seq<char>|
        (#[trigger] table_bucket(t, g, m) is Some <==> declares_mode(groups, g, m))
        && (declares_mode(groups, g, m) ==> ordering_result(bucket_members(apps, g, m), m == OFF@, Ok(table_bucket(t, g, m)->Some_0)))
        && (declares_mode(groups, g, m) ==> bucket_orderable(bucket_members(apps, g, m))) by {
        if has_key(groups, g) {
            let a = choose|a: int| 0 <= a < groups.len() && groups[a].0 == g;
            lemma_value_at(groups, a);
            lemma_value_at(t, a);
            assert(t[a].0 == g);
            let modes = t[a].1@;
            modes.len();
            lemma_modes_lookup(modes, apps, g, m);
            if has_key(modes, m) {
                assert(texts(groups[a].1.mode@).contains(m));
            } else {
                assert(!texts(groups[a].1.mode@).contains(m));
            }
        } else {
            lemma_absent_key(groups, g);
            assert forall|a: int| 0 <= a < t.len() implies t[a].0 != g by {
                assert(t[a].0 == groups[a].0);
            }
            lemma_absent_key(t, g);
        }
    }
}

proof fn lemma_modes_lookup(
    modes: Seq<(Seq<char>, Vec<ExecutionManifest>)>,
    apps: Seq<ExecutionManifestView>,
    g: Seq<char>,
    m: Seq<char>,
)
    requires
        forall|idx: int| 0 <= idx < modes.len() ==> mode_entry_ordered(apps, g, #[trigger] modes[idx]),
    ensures
        has_key(modes, m) ==> value_of(modes, m) is Some && ordering_result(
            bucket_members(apps, g, m),
            m == OFF@,
            Ok(manifest_views(value_of(modes, m)->Some_0@)),
        ),
        !has_key(modes, m) ==> value_of(modes, m) is None,
{
    if has_key(modes, m) {
        let k = choose|k: int| 0 <= k < modes.len() && modes[k].0 == m;
        let f = first_key_index(modes, m, k);
        lemma_first_key(modes, m, f);
        assert(mode_entry_ordered(apps, g, modes[f]));
    } else {
        lemma_absent_key(modes, m);
    }
}

proof fn lemma_modes_insert(
    before: Seq<(Seq<char>, Vec<ExecutionManifest>)>,
    after: Seq<(Seq<char>, Vec<ExecutionManifest>)>,
    key: Seq<char>,
    val: Vec<ExecutionManifest>,
    taken: Seq<Seq<char>>,
    apps: Seq<ExecutionManifestView>,
    g: Seq<char>,
)
    requires
        has_key(before, key) ==> exists|i: int| is_first_key(before, key, i) && after == before.update(i, (key, val)),
        !has_key(before, key) ==> after == before.push((key, val)),
        forall|m: Seq<char>| has_key(before, m) <==> taken.contains(m),
        forall|idx: int| 0 <= idx < before.len() ==> mode_entry_ordered(apps, g, #[trigger] before[idx]),
        mode_entry_ordered(apps, g, (key, val)),
    ensures
        forall|m: Seq<char>| has_key(after, m) <==> taken.push(key).contains(m),
        forall|idx: int| 0 <= idx < after.len() ==> mode_entry_ordered(apps, g, #[trigger] after[idx]),
{
    let next = taken.push(key);
    assert(next[taken.len() as int] == key);
    if has_key(before, key) {
        let i = choose|i: int| is_first_key(before, key, i) && after == before.update(i, (key, val));
        assert forall|m: Seq<char>| has_key(after, m) <==> next.contains(m) by {
            if has_key(after, m) {
                let j = choose|j: int| 0 <= j < after.len() && after[j].0 == m;
                if j != i {
                    assert(before[j].0 == m);
                    assert(taken.contains(m));
                    let k = choose|k: int| 0 <= k < taken.len() && taken[k] == m;
                    assert(next[k] == m);
                }
            }
            if next.contains(m) {
                let j = choose|j: int| 0 <= j < next.len() && next[j] == m;
                if j < taken.len() {
                    assert(taken[j] == m);
                    assert(has_key(before, m));
                    let k = choose|k: int| 0 <= k < before.len() && before[k].0 == m;
                    if k == i {
                        assert(after[i].0 == m);
                    } else {
                        assert(after[k].0 == m);
                    }
                } else {
                    assert(after[i].0 == m);
                }
            }
        }
        assert forall|idx: int| 0 <= idx < after.len() implies mode_entry_ordered(apps, g, #[trigger] after[idx]) by {
            if idx != i {
                assert(after[idx] == before[idx]);
            }
        }
    } else {
        assert forall|m: Seq<char>| has_key(after, m) <==> next.contains(m) by {
            if has_key(after, m) {
                let j = choose|j: int| 0 <= j < after.len() && after[j].0 == m;
                if j < before.len() {
                    assert(before[j].0 == m);
                    assert(taken.contains(m));
                    let k = choose|k: int| 0 <= k < taken.len() && taken[k] == m;
                    assert(next[k] == m);
                }
            }
            if next.contains(m) {
                let j = choose|j: int| 0 <= j < next.len() && next[j] == m;
                if j < taken.len() {
                    assert(taken[j] == m);
                    assert(has_key(before, m));
                    let k = choose|k: int| 0 <= k < before.len() && before[k].0 == m;
                    assert(after[k].0 == m);
                } else {
                    assert(after[before.len() as int].0 == m);
                }
            }
        }
        assert forall|idx: int| 0 <= idx < after.len() implies mode_entry_ordered(apps, g, #[trigger] after[idx]) by {
            if idx < before.len() {
                assert(after[idx] == before[idx]);
            }
        }
    }
}

} // verus!
