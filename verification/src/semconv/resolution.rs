//! What resolving a semantic convention catalog gives, stated over the
//! groups of its specifications: the groups recorded by type and id, and the
//! attributes of the metrics that extend a convention.
use vstd::prelude::*;
use crate::semconv::attribute::AttributeView;
use crate::semconv::catalog::{
    CatalogState, extend_metrics, group_attrs_of, group_attrs_step, group_metric, group_metric_step, group_step,
    groups_fold, specs_fold,
};
use crate::semconv::group::{ConvType, GroupView};
use crate::semconv::metric::MetricView;

verus! {

/// The metrics that extend a convention have distinct names, each a metric
/// of the catalog.
pub open spec fn extends_keyed(st: CatalogState) -> bool {
    &&& forall|i: int, j: int|
        0 <= i < j < st.extends.len() ==> (#[trigger] st.extends[i]).0 != (#[trigger] st.extends[j]).0
    &&& forall|i: int| 0 <= i < st.extends.len() ==> st.metrics.contains_key((#[trigger] st.extends[i]).0)
}

/// What the catalog holds once a group has been processed: the group is
/// recorded in the table of its type (unless it is a scope); a metric group
/// has its metric under its name, and the metric is recorded as extending
/// the convention that the group names, if any.
pub open spec fn group_in(st: CatalogState, g: GroupView) -> bool {
    &&& g.group_type != ConvType::Scope ==> st.tables[g.group_type].contains_key(g.id)
    &&& (g.group_type == ConvType::Metric && g.metric_name is Some) ==> {
        let n = g.metric_name->0;
        &&& st.metrics.contains_key(n)
        &&& st.metrics[n] == group_metric(n, g)
        &&& g.extends is Some ==> st.extends.contains((n, g.extends->0))
    }
}

/// The tables of `b` hold every group id of the tables of `a`.
pub open spec fn tables_grow(a: CatalogState, b: CatalogState) -> bool {
    forall|t: ConvType, k: Seq<char>| a.tables[t].contains_key(k) ==> #[trigger] b.tables[t].contains_key(k)
}

/// From `a` to `b`, the metrics and the extending metrics only grow: every
/// metric keeps its definition, and the extending metrics are kept in front.
pub open spec fn metrics_grow(a: CatalogState, b: CatalogState) -> bool {
    &&& forall|n: Seq<char>| #[trigger] a.metrics.contains_key(n) ==> b.metrics.contains_key(n) && b.metrics[n] == a.metrics[n]
    &&& a.extends.is_prefix_of(b.extends)
}

/// A state with more metrics and extending metrics, and more table entries,
/// keeps what it held of a processed group.
proof fn lemma_group_in_grows(a: CatalogState, b: CatalogState, g: GroupView)
    requires
        group_in(a, g),
        tables_grow(a, b),
        metrics_grow(a, b),
    ensures
        group_in(b, g),
{
    if g.group_type == ConvType::Metric && g.metric_name is Some && g.extends is Some {
        let n = g.metric_name->0;
        let e = (n, g.extends->0);
        let i = choose|i: int| 0 <= i < a.extends.len() && a.extends[i] == e;
        assert(b.extends.subrange(0, a.extends.len() as int) == a.extends);
        assert(b.extends[i] == e);
        assert(b.extends.contains(e));
    }
    if g.group_type == ConvType::Metric && g.metric_name is Some {
        let n = g.metric_name->0;
        assert(b.metrics.contains_key(n) && b.metrics[n] == a.metrics[n]);
    }
    if g.group_type != ConvType::Scope {
        assert(b.tables[g.group_type].contains_key(g.id));
    }
}

/// Processing a group without an error keeps what the catalog held, records
/// the group, and adds to the tables only the group's id.
proof fn lemma_group_step(st: CatalogState, path: Seq<char>, g: GroupView)
    requires
        extends_keyed(st),
        group_step(st, path, g).1 is None,
    ensures
        ({
            let st2 = group_step(st, path, g).0;
            &&& extends_keyed(st2)
            &&& group_in(st2, g)
            &&& tables_grow(st, st2)
            &&& metrics_grow(st, st2)
            &&& forall|t: ConvType, k: Seq<char>|
                #[trigger] st2.tables[t].contains_key(k) ==> st.tables[t].contains_key(k) || (g.group_type == t
                    && g.id == k && t != ConvType::Scope)
        }),
{
    let (st1, e1) = group_attrs_step(st, path, g);
    assert(st1.metrics == st.metrics && st1.extends == st.extends);
    assert(st.extends.is_prefix_of(st1.extends)) by {
        assert(st1.extends.subrange(0, st.extends.len() as int) =~= st.extends);
    }
    let st2 = group_step(st, path, g).0;
    if g.group_type == ConvType::Metric {
        let n = g.metric_name->0;
        assert(!st1.metrics.contains_key(n));
        assert(st2.metrics == st1.metrics.insert(n, group_metric(n, g)));
        if g.extends is Some {
            let r = g.extends->0;
            assert(st2.extends == st1.extends.push((n, r)));
            assert(st2.extends[st1.extends.len() as int] == (n, r));
            assert(st.extends.is_prefix_of(st2.extends)) by {
                assert(st2.extends.subrange(0, st.extends.len() as int) =~= st.extends);
            }
            assert forall|i: int, j: int|
                0 <= i < j < st2.extends.len() implies (#[trigger] st2.extends[i]).0 != (#[trigger] st2.extends[j]).0 by {
                if j == st1.extends.len() {
                    assert(st.metrics.contains_key(st.extends[i].0));
                }
            }
            assert forall|i: int| 0 <= i < st2.extends.len() implies st2.metrics.contains_key(
                (#[trigger] st2.extends[i]).0,
            ) by {
                if i < st1.extends.len() {
                    assert(st.metrics.contains_key(st.extends[i].0));
                }
            }
        } else {
            assert(st2.extends == st1.extends);
        }
    }
}

/// Processing the first `k` groups of a specification without an error
/// records each of them, keeps what the catalog held, and adds to the
/// tables only their ids.
proof fn lemma_groups_fold(st: CatalogState, path: Seq<char>, gs: Seq<GroupView>, k: int)
    requires
        extends_keyed(st),
        0 <= k <= gs.len(),
        groups_fold(st, path, gs.subrange(0, k)).1 is None,
    ensures
        ({
            let st2 = groups_fold(st, path, gs.subrange(0, k)).0;
            &&& extends_keyed(st2)
            &&& forall|j: int| 0 <= j < k ==> group_in(st2, #[trigger] gs[j])
            &&& tables_grow(st, st2)
            &&& metrics_grow(st, st2)
            &&& forall|t: ConvType, key: Seq<char>|
                #[trigger] st2.tables[t].contains_key(key) ==> st.tables[t].contains_key(key) || exists|j: int|
                    0 <= j < k && (#[trigger] gs[j]).group_type == t && gs[j].id == key && t != ConvType::Scope
        }),
    decreases k,
{
    let pre = gs.subrange(0, k);
    if k == 0 {
        assert(st.extends.subrange(0, st.extends.len() as int) =~= st.extends);
    } else {
        assert(pre.drop_last() =~= gs.subrange(0, k - 1));
        assert(pre.last() == gs[k - 1]);
        let (st1, e1) = groups_fold(st, path, gs.subrange(0, k - 1));
        assert(e1 is None);
        lemma_groups_fold(st, path, gs, k - 1);
        lemma_group_step(st1, path, gs[k - 1]);
        let st2 = groups_fold(st, path, pre).0;
        assert(st2 == group_step(st1, path, gs[k - 1]).0);
        assert forall|j: int| 0 <= j < k implies group_in(st2, #[trigger] gs[j]) by {
            if j < k - 1 {
                lemma_group_in_grows(st1, st2, gs[j]);
            }
        }
        assert(st.extends.is_prefix_of(st2.extends)) by {
            assert(st2.extends.subrange(0, st.extends.len() as int) =~= st.extends);
        }
        assert forall|t: ConvType, key: Seq<char>| #[trigger] st2.tables[t].contains_key(key) implies st.tables[t].contains_key(
            key,
        ) || exists|j: int| 0 <= j < k && (#[trigger] gs[j]).group_type == t && gs[j].id == key && t != ConvType::Scope by {
            if !st1.tables[t].contains_key(key) {
                assert(gs[k - 1].group_type == t && gs[k - 1].id == key && t != ConvType::Scope);
            } else if !st.tables[t].contains_key(key) {
                let j = choose|j: int| 0 <= j < k - 1 && (#[trigger] gs[j]).group_type == t && gs[j].id == key && t != ConvType::Scope;
                assert(0 <= j < k && gs[j].group_type == t && gs[j].id == key);
            }
        }
    }
}

/// Whether a group of the specifications is at a position.
pub open spec fn group_at(specs: Seq<(Seq<char>, Seq<GroupView>)>, si: int, gi: int) -> bool {
    0 <= si < specs.len() && 0 <= gi < specs[si].1.len()
}

/// Processing the first `k` specifications without an error records each
/// of their groups, and adds to the tables only their ids.
proof fn lemma_specs_fold(st: CatalogState, specs: Seq<(Seq<char>, Seq<GroupView>)>, k: int)
    requires
        extends_keyed(st),
        0 <= k <= specs.len(),
        specs_fold(st, specs.subrange(0, k)).1 is None,
    ensures
        ({
            let st2 = specs_fold(st, specs.subrange(0, k)).0;
            &&& extends_keyed(st2)
            &&& forall|si: int, gi: int| si < k && group_at(specs, si, gi) ==> group_in(st2, #[trigger] specs[si].1[gi])
            &&& tables_grow(st, st2)
            &&& metrics_grow(st, st2)
            &&& forall|t: ConvType, key: Seq<char>|
                #[trigger] st2.tables[t].contains_key(key) ==> st.tables[t].contains_key(key) || exists|si: int, gi: int|
                    si < k && group_at(specs, si, gi) && (#[trigger] specs[si].1[gi]).group_type == t
                        && specs[si].1[gi].id == key && t != ConvType::Scope
        }),
    decreases k,
{
    let pre = specs.subrange(0, k);
    if k == 0 {
        assert(st.extends.subrange(0, st.extends.len() as int) =~= st.extends);
    } else {
        assert(pre.drop_last() =~= specs.subrange(0, k - 1));
        assert(pre.last() == specs[k - 1]);
        let (st1, e1) = specs_fold(st, specs.subrange(0, k - 1));
        assert(e1 is None);
        lemma_specs_fold(st, specs, k - 1);
        let gs = specs[k - 1].1;
        assert(gs.subrange(0, gs.len() as int) == gs);
        lemma_groups_fold(st1, specs[k - 1].0, gs, gs.len() as int);
        let st2 = specs_fold(st, pre).0;
        assert(st2 == groups_fold(st1, specs[k - 1].0, gs).0);
        assert forall|si: int, gi: int| si < k && group_at(specs, si, gi) implies group_in(
            st2,
            #[trigger] specs[si].1[gi],
        ) by {
            if si < k - 1 {
                lemma_group_in_grows(st1, st2, specs[si].1[gi]);
            } else {
                assert(gs[gi] == specs[si].1[gi]);
            }
        }
        assert(st.extends.is_prefix_of(st2.extends)) by {
            assert(st2.extends.subrange(0, st.extends.len() as int) =~= st.extends);
        }
        assert forall|t: ConvType, key: Seq<char>| #[trigger] st2.tables[t].contains_key(key) implies st.tables[t].contains_key(
            key,
        ) || exists|si: int, gi: int|
            si < k && group_at(specs, si, gi) && (#[trigger] specs[si].1[gi]).group_type == t && specs[si].1[gi].id
                == key && t != ConvType::Scope by {
            if !st1.tables[t].contains_key(key) {
                let j = choose|j: int| 0 <= j < gs.len() && (#[trigger] gs[j]).group_type == t && gs[j].id == key && t != ConvType::Scope;
                assert(group_at(specs, k - 1, j) && specs[k - 1].1[j].group_type == t && specs[k - 1].1[j].id == key);
            } else if !st.tables[t].contains_key(key) {
                let (si, gi) = choose|si: int, gi: int|
                    si < k - 1 && group_at(specs, si, gi) && (#[trigger] specs[si].1[gi]).group_type == t
                        && specs[si].1[gi].id == key && t != ConvType::Scope;
                assert(si < k && group_at(specs, si, gi) && specs[si].1[gi].group_type == t && specs[si].1[gi].id == key);
            }
        }
    }
}

/// A metric after it takes in the attributes of the convention it extends.
pub open spec fn extended(m: MetricView, inherited: Option<Seq<AttributeView>>) -> MetricView {
    match inherited {
        Some(a) => MetricView {
            name: m.name,
            brief: m.brief,
            note: m.note,
            attributes: m.attributes + a,
            instrument: m.instrument,
            unit: m.unit,
        },
        None => m,
    }
}

/// With distinct extending metrics, each takes in the attributes of the
/// convention it extends, and the other metrics are left as they are.
proof fn lemma_extend_metrics(
    metrics: Map<Seq<char>, MetricView>,
    ext: Seq<(Seq<char>, Seq<char>)>,
    specs: Seq<(Seq<char>, Seq<GroupView>)>,
)
    requires
        forall|i: int, j: int| 0 <= i < j < ext.len() ==> (#[trigger] ext[i]).0 != (#[trigger] ext[j]).0,
        forall|i: int| 0 <= i < ext.len() ==> metrics.contains_key((#[trigger] ext[i]).0),
    ensures
        extend_metrics(metrics, ext, specs).dom() == metrics.dom(),
        forall|i: int|
            0 <= i < ext.len() ==> extend_metrics(metrics, ext, specs)[(#[trigger] ext[i]).0] == extended(
                metrics[ext[i].0],
                group_attrs_of(specs, ext[i].1),
            ),
        forall|n: Seq<char>|
            metrics.contains_key(n) && (forall|i: int| 0 <= i < ext.len() ==> (#[trigger] ext[i]).0 != n) ==> #[trigger] extend_metrics(
                metrics,
                ext,
                specs,
            )[n] == metrics[n],
    decreases ext.len(),
{
    if ext.len() > 0 {
        let pre = ext.drop_last();
        assert forall|i: int, j: int| 0 <= i < j < pre.len() implies (#[trigger] pre[i]).0 != (#[trigger] pre[j]).0 by {
            assert(pre[i] == ext[i] && pre[j] == ext[j]);
        }
        assert forall|i: int| 0 <= i < pre.len() implies metrics.contains_key((#[trigger] pre[i]).0) by {
            assert(pre[i] == ext[i]);
        }
        lemma_extend_metrics(metrics, pre, specs);
        let m = extend_metrics(metrics, pre, specs);
        let name = ext.last().0;
        assert forall|i: int| 0 <= i < pre.len() implies (#[trigger] pre[i]).0 != name by {
            assert(pre[i] == ext[i]);
            assert(ext[ext.len() - 1] == ext.last());
        }
        assert(m[name] == metrics[name]);
        let fin = extend_metrics(metrics, ext, specs);
        assert(fin.dom() =~= metrics.dom());
        assert forall|i: int| 0 <= i < ext.len() implies fin[(#[trigger] ext[i]).0] == extended(
            metrics[ext[i].0],
            group_attrs_of(specs, ext[i].1),
        ) by {
            if i < ext.len() - 1 {
                assert(pre[i] == ext[i]);
                assert(ext[i].0 != name);
            } else {
                assert(ext[i] == ext.last());
            }
        }
        assert forall|n: Seq<char>|
            metrics.contains_key(n) && (forall|i: int| 0 <= i < ext.len() ==> (#[trigger] ext[i]).0 != n) implies #[trigger] fin[n]
            == metrics[n] by {
            assert(ext[ext.len() - 1] == ext.last());
            assert forall|i: int| 0 <= i < pre.len() implies (#[trigger] pre[i]).0 != n by {
                assert(pre[i] == ext[i]);
            }
        }
    }
}

/// When processing the specifications succeeds from a catalog with no
/// pending extension, every metric group that extends a convention gets,
/// once the extensions are applied, its own attributes followed by the
/// attributes that the group whose id it names defines, whatever that
/// group's type (nothing more when no loaded group has that id); its other
/// fields are those of the metric group.
pub proof fn lemma_metric_extends(st0: CatalogState, specs: Seq<(Seq<char>, Seq<GroupView>)>, si: int, gi: int)
    requires
        st0.extends.len() == 0,
        specs_fold(st0, specs).1 is None,
        group_at(specs, si, gi),
        specs[si].1[gi].group_type == ConvType::Metric,
        specs[si].1[gi].metric_name is Some,
        specs[si].1[gi].extends is Some,
    ensures
        ({
            let st = specs_fold(st0, specs).0;
            let g = specs[si].1[gi];
            let n = g.metric_name->0;
            let fin = extend_metrics(st.metrics, st.extends, specs);
            &&& fin.contains_key(n)
            &&& fin[n] == extended(group_metric(n, g), group_attrs_of(specs, g.extends->0))
            &&& fin[n].attributes == g.attributes + match group_attrs_of(specs, g.extends->0) {
                Some(a) => a,
                None => Seq::empty(),
            }
        }),
{
    assert(specs.subrange(0, specs.len() as int) == specs);
    lemma_specs_fold(st0, specs, specs.len() as int);
    let st = specs_fold(st0, specs).0;
    let g = specs[si].1[gi];
    let n = g.metric_name->0;
    let r = g.extends->0;
    assert(group_in(st, g));
    let i = choose|i: int| 0 <= i < st.extends.len() && st.extends[i] == (n, r);
    lemma_extend_metrics(st.metrics, st.extends, specs);
    assert(st.extends[i].0 == n && st.extends[i].1 == r);
    if group_attrs_of(specs, r) is None {
        assert(g.attributes + Seq::<AttributeView>::empty() =~= g.attributes);
    }
}

/// When processing the specifications succeeds, the tables hold, by type,
/// exactly the ids that they held before and those of the loaded groups
/// (every type but scope), each whatever its attributes (none, maybe).
pub proof fn lemma_groups_recorded(st0: CatalogState, specs: Seq<(Seq<char>, Seq<GroupView>)>)
    requires
        extends_keyed(st0),
        specs_fold(st0, specs).1 is None,
    ensures
        ({
            let st = specs_fold(st0, specs).0;
            &&& forall|si: int, gi: int|
                group_at(specs, si, gi) && (#[trigger] specs[si].1[gi]).group_type != ConvType::Scope
                    ==> st.tables[specs[si].1[gi].group_type].contains_key(specs[si].1[gi].id)
            &&& forall|t: ConvType, key: Seq<char>|
                #[trigger] st.tables[t].contains_key(key) <==> st0.tables[t].contains_key(key) || exists|si: int, gi: int|
                    group_at(specs, si, gi) && (#[trigger] specs[si].1[gi]).group_type == t && specs[si].1[gi].id
                        == key && t != ConvType::Scope
        }),
{
    assert(specs.subrange(0, specs.len() as int) == specs);
    lemma_specs_fold(st0, specs, specs.len() as int);
    let st = specs_fold(st0, specs).0;
    assert forall|si: int, gi: int|
        group_at(specs, si, gi) && (#[trigger] specs[si].1[gi]).group_type != ConvType::Scope implies st.tables[specs[si].1[gi].group_type].contains_key(
        specs[si].1[gi].id,
    ) by {
        assert(group_in(st, specs[si].1[gi]));
    }
    assert forall|t: ConvType, key: Seq<char>| #[trigger] st.tables[t].contains_key(key) <==> st0.tables[t].contains_key(key)
        || exists|si: int, gi: int|
        group_at(specs, si, gi) && (#[trigger] specs[si].1[gi]).group_type == t && specs[si].1[gi].id == key && t
            != ConvType::Scope by {
        if st.tables[t].contains_key(key) && !st0.tables[t].contains_key(key) {
            let (si, gi) = choose|si: int, gi: int|
                si < specs.len() && group_at(specs, si, gi) && (#[trigger] specs[si].1[gi]).group_type == t
                    && specs[si].1[gi].id == key && t != ConvType::Scope;
            assert(group_at(specs, si, gi) && specs[si].1[gi].group_type == t && specs[si].1[gi].id == key
                && t != ConvType::Scope);
        }
        if exists|si: int, gi: int|
            group_at(specs, si, gi) && (#[trigger] specs[si].1[gi]).group_type == t && specs[si].1[gi].id == key && t
                != ConvType::Scope {
            let (si, gi) = choose|si: int, gi: int|
                group_at(specs, si, gi) && (#[trigger] specs[si].1[gi]).group_type == t && specs[si].1[gi].id == key
                    && t != ConvType::Scope;
            assert(group_in(st, specs[si].1[gi]));
        }
    }
}

} // verus!
