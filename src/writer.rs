//! Registration: one pass over the declarations to export, which plans
//! every block, deduplicates help texts by content and writes each instance
//! domain once; then the image, the value cells and publication.
use vstd::prelude::*;
use vstd::utf8::encode_utf8;
use crate::bytes::copy_bytes;
use crate::codec::{cell_of, slot_of, type_of, ValueView};
use crate::ident::{instance_id, instance_id_of, valid_indom, valid_item};
use crate::layout::{idx_ok, plan_ok, IndomRec, InstanceRec, MetricRec, Plan, ValueRec};
use crate::metric::{Indom, indom_ok, instance_metric_ok, metric_ok, InstanceMetric, InstanceMetricView, Metric, MetricView};
use crate::mmv::Version;

verus! {

/// A declaration to export: a singleton metric or an instance metric.
pub enum Decl<'a> {
    Single(&'a Metric),
    Multi(&'a InstanceMetric),
}

/// What a declaration declares.
pub enum DeclView {
    Single(MetricView),
    Multi(InstanceMetricView),
}

impl<'a> View for Decl<'a> {
    type V = DeclView;

    open spec fn view(&self) -> DeclView {
        match self {
            Decl::Single(m) => DeclView::Single(m@),
            Decl::Multi(m) => DeclView::Multi(m@),
        }
    }
}

/// The metric block a declaration writes.
pub open spec fn decl_metric(d: DeclView) -> MetricView {
    match d {
        DeclView::Single(m) => m,
        DeclView::Multi(m) => m.metric,
    }
}

/// Number of value cells of a declaration.
pub open spec fn decl_count(d: DeclView) -> nat {
    match d {
        DeclView::Single(_) => 1,
        DeclView::Multi(m) => m.vals.len(),
    }
}

/// An upper bound on the blocks that the first `n` declarations add.
pub open spec fn cost(ds: Seq<DeclView>, n: nat) -> nat
    decreases n,
{
    if n == 0 || n > ds.len() {
        0
    } else {
        cost(ds, (n - 1) as nat) + 7 + 4 * decl_count(ds[n - 1])
    }
}

/// The views of declarations.
pub open spec fn decls_view(ds: Seq<Decl>) -> Seq<DeclView> {
    ds.map_values(|d: Decl| d@)
}

/// `r` refers to a string block holding `t`; no block for an empty text.
pub open spec fn text_ref(p: Plan, r: Option<usize>, t: Seq<char>) -> bool {
    if t.len() == 0 {
        r is None
    } else {
        r matches Some(k) && k < p.strings@.len() && p.strings@[k as int]@ == encode_utf8(t)
    }
}

/// `r` refers to a string block holding `t`.
pub open spec fn name_ref(p: Plan, r: Option<usize>, t: Seq<char>) -> bool {
    r matches Some(k) && k < p.strings@.len() && p.strings@[k as int]@ == encode_utf8(t)
}

/// The metric block `mr` describes the metric `m`.
pub open spec fn metric_rec_of(p: Plan, ver: Version, mr: MetricRec, m: MetricView) -> bool {
    &&& mr.name@ == encode_utf8(m.name)
    &&& mr.item == m.item
    &&& mr.typ == type_of(m.val)
    &&& mr.sem == m.sem.spec_code()
    &&& mr.unit == m.unit
    &&& mr.indom == m.indom
    &&& text_ref(p, mr.short_str, m.shorthelp)
    &&& text_ref(p, mr.long_str, m.longhelp)
    &&& (ver == Version::V1 ==> mr.name_str is None)
    &&& (ver == Version::V2 ==> name_ref(p, mr.name_str, m.name))
}

/// The value block `v` holds `val` for metric block `i`; a string value has
/// a string block of its own.
pub open spec fn value_rec_of(p: Plan, v: ValueRec, i: int, val: ValueView) -> bool {
    &&& v.metric == i
    &&& v.slot == slot_of(val)
    &&& match val {
        ValueView::Str(s) => name_ref(p, v.str_cell, s),
        _ => v.str_cell is None,
    }
}

/// The value blocks of declaration `i` start at `start` and describe its
/// values, one per instance in the domain's order for an instance metric.
pub open spec fn decl_values_ok(p: Plan, d: DeclView, i: int, start: int) -> bool {
    match d {
        DeclView::Single(m) => {
            &&& start < p.values@.len()
            &&& value_rec_of(p, p.values@[start], i, m.val)
            &&& p.values@[start].instance is None
        },
        DeclView::Multi(m) => {
            &&& start + m.vals.len() <= p.values@.len()
            &&& forall|j: int|
                0 <= j < m.vals.len() ==> {
                    let v = #[trigger] p.values@[start + j];
                    &&& value_rec_of(p, v, i, m.vals[j])
                    &&& v.instance matches Some(x) && x < p.instances@.len() && {
                        let k = p.instances@[x as int].indom;
                        &&& k < p.indoms@.len()
                        &&& p.indoms@[k as int].id == m.indom.id
                        &&& x == p.indoms@[k as int].first + j
                        &&& p.instances@[x as int].name@ == encode_utf8(m.indom.instances[j])
                    }
                }
        },
    }
}

/// Instance domain block `k` was written from the domain of declaration
/// `src`: its id, count and help, and one instance block per instance in
/// order, each with its name and internal id.
pub open spec fn indom_rec_of(p: Plan, ver: Version, k: int, d: DeclView) -> bool {
    &&& d is Multi
    &&& {
        let m = d->Multi_0;
        let r = p.indoms@[k];
        &&& r.id == m.indom.id
        &&& r.count == m.indom.instances.len()
        &&& r.first + r.count <= p.instances@.len()
        &&& text_ref(p, r.short_str, m.indom.shorthelp)
        &&& text_ref(p, r.long_str, m.indom.longhelp)
        &&& forall|j: int|
            0 <= j < r.count ==> {
                let inst = #[trigger] p.instances@[r.first + j];
                &&& inst.name@ == encode_utf8(m.indom.instances[j])
                &&& inst.internal_id == instance_id_of(encode_utf8(m.indom.instances[j]))
                &&& inst.indom == k
                &&& (ver == Version::V1 ==> inst.name_str is None)
                &&& (ver == Version::V2 ==> name_ref(p, inst.name_str, m.indom.instances[j]))
            }
    }
}

/// Help string blocks: distinct contents, each in bounds.
pub open spec fn helps_distinct(p: Plan, helps: Seq<usize>) -> bool {
    &&& forall|a: int| 0 <= a < helps.len() ==> #[trigger] helps[a] < p.strings@.len()
    &&& forall|a: int, b: int|
        0 <= a < b < helps.len() ==> p.strings@[helps[a] as int]@ != p.strings@[helps[b] as int]@
}

/// A help reference is to one of the help string blocks.
pub open spec fn in_helps(r: Option<usize>, helps: Seq<usize>) -> bool {
    r matches Some(k) ==> helps.contains(k)
}

/// The instances of the first `n` instance domain blocks.
pub open spec fn count_sum(ds: Seq<IndomRec>, n: int) -> int
    decreases n,
{
    if n <= 0 || n > ds.len() {
        0
    } else {
        count_sum(ds, n - 1) + ds[n - 1].count
    }
}

/// The instance blocks are exactly the domains' runs, one after another.
pub open spec fn runs_ok(p: Plan) -> bool {
    &&& p.instances@.len() == count_sum(p.indoms@, p.indoms@.len() as int)
    &&& forall|k: int| 0 <= k < p.indoms@.len() ==> (#[trigger] p.indoms@[k]).first == count_sum(p.indoms@, k)
}

proof fn lemma_count_sum_push(s: Seq<IndomRec>, x: IndomRec, k: int)
    requires
        0 <= k <= s.len(),
    ensures
        count_sum(s.push(x), k) == count_sum(s, k),
    decreases k,
{
    if k > 0 {
        lemma_count_sum_push(s, x, k - 1);
        assert(s.push(x)[k - 1] == s[k - 1]);
    }
}

/// Number of value blocks with a string cell.
pub open spec fn n_str_values(vs: Seq<ValueRec>) -> nat
    decreases vs.len(),
{
    if vs.len() == 0 {
        0
    } else {
        n_str_values(vs.drop_last()) + (if vs.last().str_cell is Some { 1nat } else { 0nat })
    }
}

proof fn lemma_n_str_push(vs: Seq<ValueRec>, x: ValueRec)
    ensures
        n_str_values(vs.push(x)) == n_str_values(vs) + (if x.str_cell is Some { 1nat } else { 0nat }),
{
    assert(vs.push(x).drop_last() =~= vs);
}

/// A reference made after the string section held `n` blocks: none, or a
/// block from `n` on.
pub open spec fn fresh_ref(r: Option<usize>, n: nat) -> bool {
    r matches Some(k) ==> k >= n
}

/// Number of name blocks: in version 2 one per metric and one per instance,
/// in version 1 none.
pub open spec fn names_of(p: Plan, ver: Version) -> nat {
    if ver == Version::V2 {
        p.metrics@.len() + p.instances@.len()
    } else {
        0
    }
}

/// A string cell of a value block is its own: never a help block, never
/// the name block of a metric or an instance.
pub open spec fn cells_private(p: Plan, helps: Seq<usize>) -> bool {
    &&& forall|v: int, a: int|
        0 <= v < p.values@.len() && 0 <= a < helps.len() ==> (#[trigger] p.values@[v]).str_cell != Some(#[trigger] helps[a])
    &&& forall|v: int, i: int|
        0 <= v < p.values@.len() && 0 <= i < p.metrics@.len() && (#[trigger] p.values@[v]).str_cell is Some
            ==> p.values@[v].str_cell != (#[trigger] p.metrics@[i]).name_str
    &&& forall|v: int, x: int|
        0 <= v < p.values@.len() && 0 <= x < p.instances@.len() && (#[trigger] p.values@[v]).str_cell is Some
            ==> p.values@[v].str_cell != (#[trigger] p.instances@[x]).name_str
}

/// The string section holds exactly the help blocks, one block per string
/// value and (in version 2) one per name: its length is their sum, every
/// help block is referred to by a metric or an instance domain, and no
/// value's string cell is a help block or a name block.
#[verifier::opaque]
pub open spec fn strings_ok(p: Plan, helps: Seq<usize>, ver: Version) -> bool {
    &&& p.strings@.len() == helps.len() + n_str_values(p.values@) + names_of(p, ver)
    &&& forall|a: int| 0 <= a < helps.len() ==> is_help_block(p, #[trigger] helps[a])
    &&& cells_private(p, helps)
}

proof fn lemma_help_block_grows(a: Plan, b: Plan, k: usize)
    requires
        is_help_block(a, k),
        a.metrics@.len() <= b.metrics@.len(),
        forall|i: int| 0 <= i < a.metrics@.len() ==> #[trigger] b.metrics@[i] == a.metrics@[i],
        a.indoms@.len() <= b.indoms@.len(),
        forall|i: int| 0 <= i < a.indoms@.len() ==> #[trigger] b.indoms@[i] == a.indoms@[i],
    ensures
        is_help_block(b, k),
{
    if exists|i: int| 0 <= i < a.metrics@.len() && ((#[trigger] a.metrics@[i]).short_str == Some(k) || a.metrics@[i].long_str == Some(k)) {
        let i = choose|i: int| 0 <= i < a.metrics@.len() && ((#[trigger] a.metrics@[i]).short_str == Some(k) || a.metrics@[i].long_str == Some(k));
        assert(b.metrics@[i] == a.metrics@[i]);
    } else {
        let i = choose|i: int| 0 <= i < a.indoms@.len() && ((#[trigger] a.indoms@[i]).short_str == Some(k) || a.indoms@[i].long_str == Some(k));
        assert(b.indoms@[i] == a.indoms@[i]);
    }
}

/// Registering one declaration keeps the string section accounted for.
#[verifier::rlimit(60)]
proof fn lemma_strings_step(pl0: Plan, h0: Seq<usize>, pl1: Plan, h1: Seq<usize>, pl2: Plan, h2: Seq<usize>, pl3: Plan, ver: Version)
    requires
        strings_ok(pl0, h0, ver),
        str_cells_ok(pl0),
        forall|a: int| 0 <= a < h0.len() ==> #[trigger] h0[a] < pl0.strings@.len(),
        // the metric block
        grows(pl0, pl1),
        pl1.metrics@.len() == pl0.metrics@.len() + 1,
        pl1.values@ == pl0.values@,
        pl1.indoms@ == pl0.indoms@,
        pl1.instances@ == pl0.instances@,
        helps_grow(h0, h1),
        pl1.strings@.len() == pl0.strings@.len() + (h1.len() - h0.len()) + (if ver == Version::V2 { 1int } else { 0int }),
        forall|a: int|
            h0.len() <= a < h1.len() ==> (Some(#[trigger] h1[a]) == pl1.metrics@[pl0.metrics@.len() as int].short_str || Some(h1[a])
                == pl1.metrics@[pl0.metrics@.len() as int].long_str) && h1[a] >= pl0.strings@.len(),
        fresh_ref(pl1.metrics@[pl0.metrics@.len() as int].name_str, pl0.strings@.len()),
        forall|a: int| 0 <= a < h1.len() ==> #[trigger] h1[a] < pl1.strings@.len(),
        forall|i: int| 0 <= i < pl1.metrics@.len() ==> idx_ok((#[trigger] pl1.metrics@[i]).name_str, pl1.strings@.len()),
        forall|i: int| 0 <= i < pl0.instances@.len() ==> idx_ok((#[trigger] pl0.instances@[i]).name_str, pl0.strings@.len()),
        forall|i: int| 0 <= i < pl0.metrics@.len() ==> idx_ok((#[trigger] pl0.metrics@[i]).name_str, pl0.strings@.len()),
        // the instance domain
        grows(pl1, pl2),
        pl2.metrics@ == pl1.metrics@,
        pl2.values@ == pl1.values@,
        helps_grow(h1, h2),
        pl2.strings@.len() == pl1.strings@.len() + (h2.len() - h1.len()) + (if ver == Version::V2 {
            pl2.instances@.len() - pl1.instances@.len()
        } else {
            0int
        }),
        forall|a: int|
            h1.len() <= a < h2.len() ==> pl1.indoms@.len() < pl2.indoms@.len() && (Some(#[trigger] h2[a]) == pl2.indoms@[pl1.indoms@.len() as int].short_str
                || Some(h2[a]) == pl2.indoms@[pl1.indoms@.len() as int].long_str) && h2[a] >= pl1.strings@.len(),
        forall|x: int| pl1.instances@.len() <= x < pl2.instances@.len() ==> fresh_ref((#[trigger] pl2.instances@[x]).name_str, pl1.strings@.len()),
        forall|x: int| 0 <= x < pl2.instances@.len() ==> idx_ok((#[trigger] pl2.instances@[x]).name_str, pl2.strings@.len()),
        forall|a: int| 0 <= a < h2.len() ==> #[trigger] h2[a] < pl2.strings@.len(),
        // the values
        grows(pl2, pl3),
        pl3.metrics@ == pl2.metrics@,
        pl3.indoms@ == pl2.indoms@,
        pl3.instances@ == pl2.instances@,
        n_str_values(pl3.values@) == n_str_values(pl2.values@) + (pl3.strings@.len() - pl2.strings@.len()),
        forall|v: int| pl2.values@.len() <= v < pl3.values@.len() ==> fresh_ref((#[trigger] pl3.values@[v]).str_cell, pl2.strings@.len()),
    ensures
        strings_ok(pl3, h2, ver),
{
    reveal(strings_ok);
    // every help block is referred to
    assert forall|a: int| 0 <= a < h2.len() implies is_help_block(pl3, #[trigger] h2[a]) by {
        if a < h0.len() {
            assert(h2[a] == h0[a]);
            assert(h1[a] == h0[a]);
            lemma_help_block_grows(pl0, pl3, h0[a]);
        } else if a < h1.len() {
            assert(h2[a] == h1[a]);
            let i = pl0.metrics@.len() as int;
            assert(pl3.metrics@[i] == pl1.metrics@[i]);
        } else {
            let i = pl1.indoms@.len() as int;
            assert(pl3.indoms@[i] == pl2.indoms@[i]);
        }
    }
    // value cells stay private
    assert forall|v: int, a: int|
        0 <= v < pl3.values@.len() && 0 <= a < h2.len() implies (#[trigger] pl3.values@[v]).str_cell != Some(#[trigger] h2[a]) by {
        if v < pl0.values@.len() {
            assert(pl3.values@[v] == pl0.values@[v]);
            if a < h0.len() {
                assert(h2[a] == h0[a]);
            } else if a < h1.len() {
                assert(h2[a] == h1[a]);
            }
        }
    }
    assert forall|v: int, i: int|
        0 <= v < pl3.values@.len() && 0 <= i < pl3.metrics@.len() && (#[trigger] pl3.values@[v]).str_cell is Some
            implies pl3.values@[v].str_cell != (#[trigger] pl3.metrics@[i]).name_str by {
        assert(pl3.metrics@[i] == pl1.metrics@[i]);
        if v < pl0.values@.len() {
            assert(pl3.values@[v] == pl0.values@[v]);
            if i < pl0.metrics@.len() {
                assert(pl1.metrics@[i] == pl0.metrics@[i]);
            }
        }
    }
    assert forall|v: int, x: int|
        0 <= v < pl3.values@.len() && 0 <= x < pl3.instances@.len() && (#[trigger] pl3.values@[v]).str_cell is Some
            implies pl3.values@[v].str_cell != (#[trigger] pl3.instances@[x]).name_str by {
        assert(pl3.instances@[x] == pl2.instances@[x]);
        if v < pl0.values@.len() {
            assert(pl3.values@[v] == pl0.values@[v]);
            if x < pl0.instances@.len() {
                assert(pl2.instances@[x] == pl0.instances@[x]);
            }
        }
    }
}

/// No two value blocks share a string cell.
pub open spec fn cells_distinct(p: Plan) -> bool {
    forall|a: int, b: int|
        0 <= a < b < p.values@.len() && (#[trigger] p.values@[a]).str_cell is Some ==> p.values@[a].str_cell
            != (#[trigger] p.values@[b]).str_cell
}

/// Every string cell of a value block is in the string section.
pub open spec fn str_cells_ok(p: Plan) -> bool {
    forall|a: int| 0 <= a < p.values@.len() ==> idx_ok((#[trigger] p.values@[a]).str_cell, p.strings@.len())
}

/// The result of registering declarations: the plan, where each
/// declaration's value blocks start, the help string blocks, and for each
/// instance domain block the declaration it was written from.
pub struct Registration {
    pub plan: Plan,
    pub value_start: Vec<usize>,
    pub help_strs: Vec<usize>,
    pub indom_src: Vec<usize>,
}

/// What registering `ds` for version `ver` yields.
pub open spec fn registration_ok(r: Registration, ds: Seq<DeclView>, ver: Version) -> bool {
    let p = r.plan;
    &&& plan_ok(p)
    &&& p.metrics@.len() == ds.len()
    &&& r.value_start@.len() == ds.len()
    &&& forall|i: int| 0 <= i < ds.len() ==> metric_rec_of(p, ver, #[trigger] p.metrics@[i], decl_metric(ds[i]))
    &&& forall|i: int| 0 <= i < ds.len() ==> decl_values_ok(p, ds[i], i, #[trigger] r.value_start@[i] as int)
    &&& forall|i: int|
        0 <= i < ds.len() ==> #[trigger] r.value_start@[i] + decl_count(ds[i]) == (if i + 1 < ds.len() {
            r.value_start@[i + 1] as int
        } else {
            p.values@.len() as int
        })
    &&& (ds.len() > 0 ==> r.value_start@[0] == 0)
    &&& (ds.len() == 0 ==> p.values@.len() == 0)
    &&& r.indom_src@.len() == p.indoms@.len()
    &&& forall|k: int|
        0 <= k < p.indoms@.len() ==> #[trigger] r.indom_src@[k] < ds.len() && indom_rec_of(
            p,
            ver,
            k,
            ds[r.indom_src@[k] as int],
        )
    &&& forall|a: int, b: int| 0 <= a < b < p.indoms@.len() ==> p.indoms@[a].id != p.indoms@[b].id
    &&& helps_distinct(p, r.help_strs@)
    &&& cells_distinct(p)
    &&& runs_ok(p)
    &&& forall|i: int|
        0 <= i < p.metrics@.len() ==> in_helps((#[trigger] p.metrics@[i]).short_str, r.help_strs@) && in_helps(
            p.metrics@[i].long_str,
            r.help_strs@,
        )
    &&& forall|k: int|
        0 <= k < p.indoms@.len() ==> in_helps((#[trigger] p.indoms@[k]).short_str, r.help_strs@) && in_helps(
            p.indoms@[k].long_str,
            r.help_strs@,
        )
}

/// Why declarations could not be registered.
#[derive(PartialEq, Eq, Structural, Clone, Copy, Debug)]
pub enum ExportError {
    /// More blocks than 32-bit counts can hold.
    TooLarge,
    /// Two instance metrics cite different domains with this same id.
    IndomClash(u32),
}

/// Two instance metrics cite different domains with one id.
pub open spec fn indom_clash(ds: Seq<DeclView>, id: u32) -> bool {
    exists|a: int, b: int|
        0 <= a < ds.len() && 0 <= b < ds.len() && (#[trigger] ds[a]) is Multi && (#[trigger] ds[b]) is Multi
            && ds[a]->Multi_0.indom.id == id && ds[b]->Multi_0.indom.id == id && ds[a]->Multi_0.indom.instances
            != ds[b]->Multi_0.indom.instances
}

/// Every block and string of `a` is still where it was in `b`.
pub open spec fn grows(a: Plan, b: Plan) -> bool {
    &&& a.strings@.len() <= b.strings@.len()
    &&& forall|k: int| 0 <= k < a.strings@.len() ==> #[trigger] b.strings@[k] == a.strings@[k]
    &&& a.metrics@.len() <= b.metrics@.len()
    &&& forall|k: int| 0 <= k < a.metrics@.len() ==> #[trigger] b.metrics@[k] == a.metrics@[k]
    &&& a.indoms@.len() <= b.indoms@.len()
    &&& forall|k: int| 0 <= k < a.indoms@.len() ==> #[trigger] b.indoms@[k] == a.indoms@[k]
    &&& a.instances@.len() <= b.instances@.len()
    &&& forall|k: int| 0 <= k < a.instances@.len() ==> #[trigger] b.instances@[k] == a.instances@[k]
    &&& a.values@.len() <= b.values@.len()
    &&& forall|k: int| 0 <= k < a.values@.len() ==> #[trigger] b.values@[k] == a.values@[k]
}

/// Number of blocks and strings a plan holds.
pub open spec fn plan_size(p: Plan) -> nat {
    p.strings@.len() + p.metrics@.len() + p.indoms@.len() + p.instances@.len() + p.values@.len()
}

proof fn lemma_grows_trans(a: Plan, b: Plan, c: Plan)
    requires
        grows(a, b),
        grows(b, c),
    ensures
        grows(a, c),
{
}

proof fn lemma_text_ref_grows(a: Plan, b: Plan, r: Option<usize>, t: Seq<char>)
    requires
        grows(a, b),
        text_ref(a, r, t),
    ensures
        text_ref(b, r, t),
{
}

proof fn lemma_name_ref_grows(a: Plan, b: Plan, r: Option<usize>, t: Seq<char>)
    requires
        grows(a, b),
        name_ref(a, r, t),
    ensures
        name_ref(b, r, t),
{
}

proof fn lemma_metric_rec_grows(a: Plan, b: Plan, ver: Version, mr: MetricRec, m: MetricView)
    requires
        grows(a, b),
        metric_rec_of(a, ver, mr, m),
    ensures
        metric_rec_of(b, ver, mr, m),
{
    lemma_text_ref_grows(a, b, mr.short_str, m.shorthelp);
    lemma_text_ref_grows(a, b, mr.long_str, m.longhelp);
    if ver == Version::V2 {
        lemma_name_ref_grows(a, b, mr.name_str, m.name);
    }
}

proof fn lemma_value_rec_grows(a: Plan, b: Plan, v: ValueRec, i: int, val: ValueView)
    requires
        grows(a, b),
        value_rec_of(a, v, i, val),
    ensures
        value_rec_of(b, v, i, val),
{
    if let ValueView::Str(s) = val {
        lemma_name_ref_grows(a, b, v.str_cell, s);
    }
}

proof fn lemma_decl_values_grows(a: Plan, b: Plan, d: DeclView, i: int, start: int)
    requires
        0 <= start,
        grows(a, b),
        decl_values_ok(a, d, i, start),
    ensures
        decl_values_ok(b, d, i, start),
{
    match d {
        DeclView::Single(m) => {
            lemma_value_rec_grows(a, b, a.values@[start], i, m.val);
        },
        DeclView::Multi(m) => {
            assert forall|j: int| 0 <= j < m.vals.len() implies {
                let v = #[trigger] b.values@[start + j];
                &&& value_rec_of(b, v, i, m.vals[j])
                &&& v.instance matches Some(x) && x < b.instances@.len() && {
                    let k = b.instances@[x as int].indom;
                    &&& k < b.indoms@.len()
                    &&& b.indoms@[k as int].id == m.indom.id
                    &&& x == b.indoms@[k as int].first + j
                    &&& b.instances@[x as int].name@ == encode_utf8(m.indom.instances[j])
                }
            } by {
                let v = a.values@[start + j];
                assert(b.values@[start + j] == v);
                lemma_value_rec_grows(a, b, v, i, m.vals[j]);
                let x = v.instance->Some_0;
                assert(b.instances@[x as int] == a.instances@[x as int]);
                let k = a.instances@[x as int].indom;
                assert(b.indoms@[k as int] == a.indoms@[k as int]);
            }
        },
    }
}

proof fn lemma_indom_rec_grows(a: Plan, b: Plan, ver: Version, k: int, d: DeclView)
    requires
        grows(a, b),
        0 <= k < a.indoms@.len(),
        indom_rec_of(a, ver, k, d),
    ensures
        indom_rec_of(b, ver, k, d),
{
    let m = d->Multi_0;
    let r = a.indoms@[k];
    assert(b.indoms@[k] == r);
    lemma_text_ref_grows(a, b, r.short_str, m.indom.shorthelp);
    lemma_text_ref_grows(a, b, r.long_str, m.indom.longhelp);
    assert forall|j: int| 0 <= j < r.count implies {
        let inst = #[trigger] b.instances@[r.first + j];
        &&& inst.name@ == encode_utf8(m.indom.instances[j])
        &&& inst.internal_id == instance_id_of(encode_utf8(m.indom.instances[j]))
        &&& inst.indom == k
        &&& (ver == Version::V1 ==> inst.name_str is None)
        &&& (ver == Version::V2 ==> name_ref(b, inst.name_str, m.indom.instances[j]))
    } by {
        let inst = a.instances@[r.first + j];
        assert(b.instances@[r.first + j] == inst);
        if ver == Version::V2 {
            lemma_name_ref_grows(a, b, inst.name_str, m.indom.instances[j]);
        }
    }
}

fn same_bytes(a: &Vec<u8>, b: &Vec<u8>) -> (r: bool)
    ensures
        r == (a@ == b@),
{
    if a.len() != b.len() {
        return false;
    }
    let mut i: usize = 0;
    while i < a.len()
        invariant
            a@.len() == b@.len(),
            i <= a@.len(),
            forall|j: int| 0 <= j < i ==> a@[j] == b@[j],
        decreases a@.len() - i,
    {
        if a[i] != b[i] {
            return false;
        }
        i = i + 1;
    }
    assert(a@ =~= b@);
    true
}

fn text_bytes(t: &str) -> (r: Vec<u8>)
    ensures
        r@ == encode_utf8(t@),
{
    let b = t.as_bytes();
    let r = copy_bytes(b, 0, b.len());
    assert(b@.subrange(0, b@.len() as int) =~= b@);
    r
}

/// Adds a fresh string block holding `b`.
fn fresh_str(p: &mut Plan, b: Vec<u8>) -> (r: usize)
    requires
        b@.len() <= 255,
        old(p).strings@.len() < usize::MAX,
    ensures
        r == old(p).strings@.len(),
        final(p).strings@ == old(p).strings@.push(b),
        final(p).metrics@ == old(p).metrics@,
        final(p).indoms@ == old(p).indoms@,
        final(p).instances@ == old(p).instances@,
        final(p).values@ == old(p).values@,
        grows(*old(p), *final(p)),
{
    let r = p.strings.len();
    p.strings.push(b);
    r
}

/// The string block for a help text: none for an empty text, the block
/// already holding the same text if there is one, else a new one.
fn help_ref(p: &mut Plan, helps: &mut Vec<usize>, t: &str) -> (r: Option<usize>)
    requires
        helps_distinct(*old(p), old(helps)@),
        encode_utf8(t@).len() <= 255,
        old(p).strings@.len() < usize::MAX,
    ensures
        text_ref(*final(p), r, t@),
        in_helps(r, final(helps)@),
        helps_distinct(*final(p), final(helps)@),
        grows(*old(p), *final(p)),
        final(p).strings@.len() <= old(p).strings@.len() + 1,
        final(p).metrics@ == old(p).metrics@,
        final(p).indoms@ == old(p).indoms@,
        final(p).instances@ == old(p).instances@,
        final(p).values@ == old(p).values@,
        forall|a: int| 0 <= a < old(helps)@.len() ==> final(helps)@[a] == #[trigger] old(helps)@[a],
        old(helps)@.len() <= final(helps)@.len(),
        forall|x: int| old(p).strings@.len() <= x < final(p).strings@.len() ==> (#[trigger] final(p).strings@[x])@.len() <= 255,
        (final(p).strings@ == old(p).strings@ && final(helps)@ == old(helps)@) || (final(p).strings@.len() == old(
            p,
        ).strings@.len() + 1 && final(helps)@ == old(helps)@.push(old(p).strings@.len() as usize) && r == Some(
            old(p).strings@.len() as usize,
        )),
{
    let b = text_bytes(t);
    if b.len() == 0 {
        assert(t@.len() == 0) by {
            if t@.len() > 0 {
                vstd::utf8::encode_utf8_first_scalar(t@);
            }
        }
        return None;
    }
    assert(t@.len() > 0);
    let mut a: usize = 0;
    while a < helps.len()
        invariant
            helps_distinct(*p, helps@),
            t@.len() > 0,
            b@ == encode_utf8(t@),
            a <= helps@.len(),
            forall|c: int| 0 <= c < a ==> p.strings@[helps@[c] as int]@ != b@,
        decreases helps@.len() - a,
    {
        let k = helps[a];
        if same_bytes(&p.strings[k], &b) {
            assert(helps@[a as int] == k);
            return Some(k);
        }
        a = a + 1;
    }
    let k = fresh_str(p, b);
    let ghost old_helps = helps@;
    helps.push(k);
    assert forall|x: int, y: int| 0 <= x < y < helps@.len() implies p.strings@[helps@[x] as int]@
        != p.strings@[helps@[y] as int]@ by {
        if y == helps@.len() - 1 {
            assert(helps@[x] == old_helps[x]);
        }
    }
    assert(helps@[helps@.len() - 1] == k);
    Some(k)
}

/// The facts that registering the first `n` declarations establishes.
#[verifier::opaque]
pub open spec fn prefix_ok(r: Registration, ds: Seq<DeclView>, n: nat, ver: Version) -> bool {
    &&& n <= ds.len()
    &&& registration_ok(r, ds.take(n as int), ver)
    &&& strings_ok(r.plan, r.help_strs@, ver)
    &&& plan_size(r.plan) <= cost(ds, n)
    &&& forall|k: int| 0 <= k < r.indom_src@.len() ==> (#[trigger] r.indom_src@[k]) < n
}

proof fn lemma_cost_mono(ds: Seq<DeclView>, a: nat, b: nat)
    requires
        a <= b <= ds.len(),
    ensures
        cost(ds, a) <= cost(ds, b),
    decreases b - a,
{
    if a < b {
        lemma_cost_mono(ds, a, (b - 1) as nat);
    }
}

/// Whether the instance blocks from `first` carry the names of `d`'s
/// instances, in order.
fn names_match(p: &Plan, first: usize, d: &Indom) -> (r: bool)
    requires
        first + d@.instances.len() <= p.instances@.len(),
    ensures
        r == forall|j: int|
            0 <= j < d@.instances.len() ==> (#[trigger] p.instances@[first + j]).name@ == encode_utf8(d@.instances[j]),
{
    let n = d.instance_count() as usize;
    let len = p.instances.len();
    let mut j: usize = 0;
    while j < n
        invariant
            len == p.instances@.len(),
            n == d@.instances.len(),
            first + n <= p.instances@.len(),
            j <= n,
            forall|jj: int| 0 <= jj < j ==> (#[trigger] p.instances@[first + jj]).name@ == encode_utf8(d@.instances[jj]),
        decreases n - j,
    {
        let b = text_bytes(d.instance(j));
        if !same_bytes(&p.instances[first + j].name, &b) {
            assert(!(p.instances@[first + j].name@ == encode_utf8(d@.instances[j as int])));
            return false;
        }
        j = j + 1;
    }
    true
}

/// Instance block `x` keeps its limits in `p`.
pub open spec fn inst_ok(p: Plan, x: int) -> bool {
    let i = p.instances@[x];
    &&& i.name@.len() <= 63
    &&& i.indom < p.indoms@.len()
    &&& idx_ok(i.name_str, p.strings@.len())
}

/// Writes (once per id) the instance domain of `m` and its instances;
/// returns the index of its block.
#[verifier::rlimit(100)]
fn indom_block(
    p: &mut Plan,
    helps: &mut Vec<usize>,
    src: &mut Vec<usize>,
    m: &InstanceMetric,
    i: usize,
    ver: Version,
    Ghost(ds): Ghost<Seq<DeclView>>,
) -> (r: Result<usize, ExportError>)
    requires
        i < ds.len(),
        ds[i as int] == DeclView::Multi(m@),
        old(src)@.len() == old(p).indoms@.len(),
        forall|k: int| 0 <= k < old(p).indoms@.len() ==> (#[trigger] old(src)@[k]) < i && indom_rec_of(
            *old(p),
            ver,
            k,
            ds[old(src)@[k] as int],
        ),
        forall|a: int, b: int| 0 <= a < b < old(p).indoms@.len() ==> old(p).indoms@[a].id != old(p).indoms@[b].id,
        helps_distinct(*old(p), old(helps)@),
        forall|k: int| 0 <= k < old(p).indoms@.len() ==> in_helps((#[trigger] old(p).indoms@[k]).short_str, old(helps)@)
            && in_helps(old(p).indoms@[k].long_str, old(helps)@),
        plan_size(*old(p)) + 3 + 2 * m@.vals.len() <= 0xffff_ffff,
        forall|x: int| 0 <= x < old(p).instances@.len() ==> inst_ok(*old(p), x),
        runs_ok(*old(p)),
    ensures
        runs_ok(*final(p)),
        final(p).strings@.len() == old(p).strings@.len() + (final(helps)@.len() - old(helps)@.len()) + (if ver
            == Version::V2 { final(p).instances@.len() - old(p).instances@.len() } else { 0int }),
        forall|a: int|
            old(helps)@.len() <= a < final(helps)@.len() ==> old(p).indoms@.len() < final(p).indoms@.len() && (Some(
                #[trigger] final(helps)@[a],
            ) == final(p).indoms@[old(p).indoms@.len() as int].short_str || Some(final(helps)@[a])
                == final(p).indoms@[old(p).indoms@.len() as int].long_str) && final(helps)@[a] >= old(p).strings@.len(),
        forall|x: int|
            old(p).instances@.len() <= x < final(p).instances@.len() ==> fresh_ref(
                (#[trigger] final(p).instances@[x]).name_str,
                old(p).strings@.len(),
            ),
        r matches Ok(k) ==> (k < old(p).indoms@.len() ==> *final(p) == *old(p) && final(helps)@ == old(helps)@
            && final(src)@ == old(src)@),
        r matches Ok(k) ==> (k >= old(p).indoms@.len() ==> k == old(p).indoms@.len() && final(p).indoms@.len() == k + 1
            && final(p).instances@.len() == old(p).instances@.len() + m@.vals.len() && final(src)@ == old(src)@.push(i)),
        forall|x: int| 0 <= x < final(p).instances@.len() ==> inst_ok(*final(p), x),
        forall|x: int| old(p).strings@.len() <= x < final(p).strings@.len() ==> (#[trigger] final(p).strings@[x])@.len() <= 255,
        r matches Ok(k) ==> k < final(p).indoms@.len() && final(p).indoms@[k as int].id == m@.indom.id
            && final(p).indoms@[k as int].count == m@.vals.len() && final(p).indoms@[k as int].first + m@.vals.len()
            <= final(p).instances@.len(),
        r matches Ok(k) ==> forall|j: int|
            0 <= j < m@.vals.len() ==> (#[trigger] final(p).instances@[final(p).indoms@[k as int].first + j]).name@
                == encode_utf8(m@.indom.instances[j]) && final(p).instances@[final(p).indoms@[k as int].first + j].indom
                == k,
        r matches Err(e) ==> e == ExportError::IndomClash(m@.indom.id) && indom_clash(ds, m@.indom.id),
        grows(*old(p), *final(p)),
        final(src)@.len() == final(p).indoms@.len(),
        forall|k: int| 0 <= k < final(p).indoms@.len() ==> (#[trigger] final(src)@[k]) <= i && indom_rec_of(
            *final(p),
            ver,
            k,
            ds[final(src)@[k] as int],
        ),
        forall|a: int, b: int| 0 <= a < b < final(p).indoms@.len() ==> final(p).indoms@[a].id != final(p).indoms@[b].id,
        helps_distinct(*final(p), final(helps)@),
        forall|k: int| 0 <= k < final(p).indoms@.len() ==> in_helps((#[trigger] final(p).indoms@[k]).short_str, final(helps)@)
            && in_helps(final(p).indoms@[k].long_str, final(helps)@),
        forall|a: int| 0 <= a < old(helps)@.len() ==> final(helps)@[a] == #[trigger] old(helps)@[a],
        old(helps)@.len() <= final(helps)@.len(),
        final(p).metrics@ == old(p).metrics@,
        final(p).values@ == old(p).values@,
        plan_size(*final(p)) <= plan_size(*old(p)) + 3 + 2 * m@.vals.len(),
{
    let d = m.indom();
    let id = d.id();
    let n = d.instance_count();
    let _ = m.metric();
    let mut k: usize = 0;
    while k < p.indoms.len()
        invariant
            *p == *old(p),
            src@ == old(src)@,
            helps@ == old(helps)@,
            helps_distinct(*p, helps@),
            forall|a: int, b: int| 0 <= a < b < p.indoms@.len() ==> p.indoms@[a].id != p.indoms@[b].id,
            forall|c: int| 0 <= c < p.indoms@.len() ==> in_helps((#[trigger] p.indoms@[c]).short_str, helps@)
                && in_helps(p.indoms@[c].long_str, helps@),
            i < ds.len(),
            ds[i as int] == DeclView::Multi(m@),
            id == m@.indom.id,
            n == m@.indom.instances.len(),
            d@ == m@.indom,
            m@.vals.len() == m@.indom.instances.len(),
            src@.len() == p.indoms@.len(),
            forall|c: int| 0 <= c < p.indoms@.len() ==> (#[trigger] src@[c]) < i && indom_rec_of(
                *p,
                ver,
                c,
                ds[src@[c] as int],
            ),
            forall|x: int| 0 <= x < p.instances@.len() ==> inst_ok(*p, x),
            runs_ok(*p),
            k <= p.indoms@.len(),
            forall|c: int| 0 <= c < k ==> p.indoms@[c].id != id,
        decreases p.indoms@.len() - k,
    {
        if p.indoms[k].id == id {
            let ghost a = src@[k as int] as int;
            proof {
                assert(indom_rec_of(*p, ver, k as int, ds[a]));
            }
            if p.indoms[k].count != n {
                proof {
                    assert(ds[a]->Multi_0.indom.instances.len() != m@.indom.instances.len());
                    assert(indom_clash(ds, id));
                }
                return Err(ExportError::IndomClash(id));
            }
            assert(p.indoms@[k as int].first + d@.instances.len() <= p.instances@.len());
            if !names_match(p, p.indoms[k].first, d) {
                proof {
                    let r = p.indoms@[k as int];
                    assert(r.count == n);
                    let j = choose|j: int|
                        0 <= j < d@.instances.len() && !((#[trigger] p.instances@[r.first + j]).name@ == encode_utf8(
                            d@.instances[j],
                        ));
                    assert(0 <= j < r.count);
                    let inst = p.instances@[r.first + j];
                    assert(inst.name@ == encode_utf8(ds[a]->Multi_0.indom.instances[j]));
                    assert(ds[a]->Multi_0.indom.instances[j] != m@.indom.instances[j]);
                    assert(indom_clash(ds, id));
                }
                return Err(ExportError::IndomClash(id));
            }
            return Ok(k);
        }
        k = k + 1;
    }
    let ghost pl0 = *p;
    let ghost h0 = helps@;
    let short_str = help_ref(p, helps, d.shorthelp());
    let ghost ps = *p;
    let ghost hs = helps@;
    let long_str = help_ref(p, helps, d.longhelp());
    proof {
        lemma_text_ref_grows(ps, *p, short_str, d@.shorthelp);
        lemma_grows_trans(pl0, ps, *p);
    }
    let first = p.instances.len();
    let ghost pl1 = *p;
    assert(pl0 == *old(p));
    assert(pl1.indoms@ == pl0.indoms@);
    assert(pl1.instances@ == pl0.instances@);
    assert(pl1.strings@.len() >= pl0.strings@.len());
    assert forall|x: int| 0 <= x < pl1.instances@.len() implies inst_ok(pl1, x) by {
        assert(inst_ok(pl0, x));
    }
    let mut j: usize = 0;
    while j < n as usize
        invariant
            j <= n,
            n == d@.instances.len(),
            d@ == m@.indom,
            indom_ok(d@),
            first == pl1.instances@.len(),
            p.instances@.len() == first + j,
            grows(pl1, *p),
            p.indoms@ == pl1.indoms@,
            p.metrics@ == pl1.metrics@,
            p.values@ == pl1.values@,
            helps_distinct(*p, helps@),
            plan_size(*p) <= plan_size(pl1) + 2 * j,
            plan_size(pl1) + 2 * n <= 0xffff_ffff,
            forall|x: int| 0 <= x < first ==> inst_ok(*p, x),
            forall|x: int|
                first <= x < p.instances@.len() ==> (#[trigger] p.instances@[x]).indom == pl1.indoms@.len()
                    && p.instances@[x].name@.len() <= 63 && idx_ok(p.instances@[x].name_str, p.strings@.len()),
            forall|x: int| pl0.strings@.len() <= x < p.strings@.len() ==> (#[trigger] p.strings@[x])@.len() <= 255,
            p.strings@.len() == pl1.strings@.len() + (if ver == Version::V2 { j as int } else { 0int }),
            pl1.strings@.len() >= pl0.strings@.len(),
            forall|x: int| first <= x < p.instances@.len() ==> fresh_ref((#[trigger] p.instances@[x]).name_str, pl0.strings@.len()),
            forall|c: int|
                0 <= c < j ==> {
                    let inst = #[trigger] p.instances@[first + c];
                    &&& inst.name@ == encode_utf8(d@.instances[c])
                    &&& inst.internal_id == instance_id_of(encode_utf8(d@.instances[c]))
                    &&& inst.indom == pl1.indoms@.len()
                    &&& (ver == Version::V1 ==> inst.name_str is None)
                    &&& (ver == Version::V2 ==> name_ref(*p, inst.name_str, d@.instances[c]))
                },
        decreases n - j,
    {
        let name = d.instance(j);
        let b = text_bytes(name);
        let iid = instance_id(b.as_slice());
        let ghost pb = *p;
        let name_str = match ver {
            Version::V1 => None,
            Version::V2 => {
                let b2 = text_bytes(name);
                Some(fresh_str(p, b2))
            },
        };
        let ghost pc = *p;
        p.instances.push(InstanceRec { indom: p.indoms.len(), internal_id: iid, name: b, name_str });
        proof {
            assert forall|x: int| 0 <= x < first implies inst_ok(*p, x) by {
                assert(p.instances@[x] == pb.instances@[x]);
                assert(inst_ok(pb, x));
            }
            assert forall|x: int| first <= x < p.instances@.len() implies fresh_ref((#[trigger] p.instances@[x]).name_str, pl0.strings@.len()) by {
                if x < p.instances@.len() - 1 {
                    assert(p.instances@[x] == pb.instances@[x]);
                }
            }
            assert forall|x: int| first <= x < p.instances@.len() implies (#[trigger] p.instances@[x]).indom
                == pl1.indoms@.len() && p.instances@[x].name@.len() <= 63 && idx_ok(
                p.instances@[x].name_str,
                p.strings@.len(),
            ) by {
                if x < p.instances@.len() - 1 {
                    assert(p.instances@[x] == pb.instances@[x]);
                }
            }
            assert forall|c: int| 0 <= c < j + 1 implies {
                let inst = #[trigger] p.instances@[first + c];
                &&& inst.name@ == encode_utf8(d@.instances[c])
                &&& inst.internal_id == instance_id_of(encode_utf8(d@.instances[c]))
                &&& inst.indom == pl1.indoms@.len()
                &&& (ver == Version::V1 ==> inst.name_str is None)
                &&& (ver == Version::V2 ==> name_ref(*p, inst.name_str, d@.instances[c]))
            } by {
                if c < j {
                    assert(p.instances@[first + c] == pb.instances@[first + c]);
                    if ver == Version::V2 {
                        lemma_name_ref_grows(pb, *p, pb.instances@[first + c].name_str, d@.instances[c]);
                    }
                }
            }
        }
        j = j + 1;
    }
    let ghost pl2 = *p;
    let k = p.indoms.len();
    p.indoms.push(IndomRec { id, count: n, first, short_str, long_str });
    src.push(i);
    proof {
        let rec = p.indoms@[k as int];
        assert(p.indoms@ == pl2.indoms@.push(rec));
        assert(pl2.indoms@ == pl0.indoms@);
        lemma_count_sum_push(pl2.indoms@, rec, k as int);
        assert forall|c: int| 0 <= c < p.indoms@.len() implies (#[trigger] p.indoms@[c]).first == count_sum(p.indoms@, c) by {
            if c < k {
                lemma_count_sum_push(pl2.indoms@, rec, c);
            }
        }
        assert(runs_ok(*p));
        assert forall|x: int| 0 <= x < p.instances@.len() implies inst_ok(*p, x) by {
            assert(p.instances@[x] == pl2.instances@[x]);
            if x < first {
                assert(inst_ok(pl2, x));
            }
        }
        assert(grows(pl2, *p));
        lemma_grows_trans(pl1, pl2, *p);
        lemma_grows_trans(pl0, pl1, *p);
        lemma_text_ref_grows(pl1, *p, short_str, d@.shorthelp);
        lemma_text_ref_grows(pl1, *p, long_str, d@.longhelp);
        assert forall|c: int| 0 <= c < p.indoms@.len() implies (#[trigger] src@[c]) <= i && indom_rec_of(
            *p,
            ver,
            c,
            ds[src@[c] as int],
        ) by {
            if c < k {
                lemma_indom_rec_grows(pl0, *p, ver, c, ds[src@[c] as int]);
            } else {
                assert forall|jj: int| 0 <= jj < n implies {
                    let inst = #[trigger] p.instances@[first + jj];
                    &&& inst.name@ == encode_utf8(m@.indom.instances[jj])
                    &&& inst.internal_id == instance_id_of(encode_utf8(m@.indom.instances[jj]))
                    &&& inst.indom == c
                    &&& (ver == Version::V1 ==> inst.name_str is None)
                    &&& (ver == Version::V2 ==> name_ref(*p, inst.name_str, m@.indom.instances[jj]))
                } by {
                    assert(p.instances@[first + jj] == pl2.instances@[first + jj]);
                    if ver == Version::V2 {
                        lemma_name_ref_grows(pl2, *p, pl2.instances@[first + jj].name_str, m@.indom.instances[jj]);
                    }
                }
            }
        }
        assert forall|c: int| 0 <= c < p.indoms@.len() implies in_helps((#[trigger] p.indoms@[c]).short_str, helps@)
            && in_helps(p.indoms@[c].long_str, helps@) by {
            if c < k {
                let r0 = pl0.indoms@[c];
                if let Some(x) = r0.short_str {
                    let w = choose|w: int| 0 <= w < h0.len() && h0[w] == x;
                    assert(hs[w] == x);
                    assert(helps@[w] == x);
                }
                if let Some(x) = r0.long_str {
                    let w = choose|w: int| 0 <= w < h0.len() && h0[w] == x;
                    assert(hs[w] == x);
                    assert(helps@[w] == x);
                }
            }
        }
    }
    Ok(k)
}

/// The value blocks of one declaration, pushed after the existing ones.
fn push_values(p: &mut Plan, d: &Decl, i: usize, first: usize, Ghost(k): Ghost<int>)
    requires
        d@ is Multi ==> {
            let m = d@->Multi_0;
            &&& 0 <= k < old(p).indoms@.len()
            &&& old(p).indoms@[k].id == m.indom.id
            &&& old(p).indoms@[k].first == first
            &&& old(p).indoms@[k].count == m.vals.len()
            &&& first + m.vals.len() <= old(p).instances@.len()
            &&& forall|j: int| 0 <= j < m.vals.len() ==> (#[trigger] old(p).instances@[first + j]).indom == k
                && old(p).instances@[first + j].name@ == encode_utf8(m.indom.instances[j])
        },
        plan_size(*old(p)) + 2 * decl_count(d@) <= 0xffff_ffff,
        str_cells_ok(*old(p)),
        cells_distinct(*old(p)),
    ensures
        str_cells_ok(*final(p)),
        cells_distinct(*final(p)),
        grows(*old(p), *final(p)),
        final(p).values@.len() == old(p).values@.len() + decl_count(d@),
        decl_values_ok(*final(p), d@, i as int, old(p).values@.len() as int),
        final(p).metrics@ == old(p).metrics@,
        final(p).indoms@ == old(p).indoms@,
        final(p).instances@ == old(p).instances@,
        plan_size(*final(p)) <= plan_size(*old(p)) + 2 * decl_count(d@),
        forall|x: int| old(p).strings@.len() <= x < final(p).strings@.len() ==> (#[trigger] final(p).strings@[x])@.len() <= 255,
        n_str_values(final(p).values@) == n_str_values(old(p).values@) + (final(p).strings@.len() - old(p).strings@.len()),
        forall|v: int|
            old(p).values@.len() <= v < final(p).values@.len() ==> fresh_ref((#[trigger] final(p).values@[v]).str_cell, old(p).strings@.len()),
{
    let start = p.values.len();
    let ghost pl0 = *p;
    match d {
        Decl::Single(m) => {
            let _ = m.item();
            let v = m.val();
            let str_cell = match &v {
                crate::codec::Value::Str(s) => Some(fresh_str(p, text_bytes(s.as_str()))),
                _ => None,
            };
            let ghost pb = *p;
            p.values.push(ValueRec { slot: v.slot(), str_cell, metric: i, instance: None });
            proof {
                lemma_n_str_push(pl0.values@, p.values@.last());
                assert(p.values@ == pl0.values@.push(p.values@.last()));
                assert forall|a: int| 0 <= a < p.values@.len() implies idx_ok((#[trigger] p.values@[a]).str_cell, p.strings@.len()) by {
                    if a < pl0.values@.len() {
                        assert(p.values@[a] == pl0.values@[a]);
                    }
                }
                assert forall|a: int, b: int|
                    0 <= a < b < p.values@.len() && (#[trigger] p.values@[a]).str_cell is Some implies p.values@[a].str_cell
                        != (#[trigger] p.values@[b]).str_cell by {
                    assert(p.values@[a] == pl0.values@[a]);
                    if b < pl0.values@.len() {
                        assert(p.values@[b] == pl0.values@[b]);
                    }
                }
            }
        },
        Decl::Multi(m) => {
            let _ = m.metric();
            let n = m.instance_count() as usize;
            let mut j: usize = 0;
            while j < n
                invariant
                    d@ == DeclView::Multi(m@),
                    instance_metric_ok(m@),
                    n == m@.vals.len(),
                    j <= n,
                    start == pl0.values@.len(),
                    p.values@.len() == start + j,
                    grows(pl0, *p),
                    p.metrics@ == pl0.metrics@,
                    p.indoms@ == pl0.indoms@,
                    p.instances@ == pl0.instances@,
                    plan_size(*p) <= plan_size(pl0) + 2 * j,
                    plan_size(pl0) + 2 * n <= 0xffff_ffff,
                    0 <= k < pl0.indoms@.len(),
                    pl0.indoms@[k].id == m@.indom.id,
                    pl0.indoms@[k].first == first,
                    first + n <= pl0.instances@.len(),
                    forall|jj: int| 0 <= jj < n ==> (#[trigger] pl0.instances@[first + jj]).indom == k
                        && pl0.instances@[first + jj].name@ == encode_utf8(m@.indom.instances[jj]),
                    forall|x: int| pl0.strings@.len() <= x < p.strings@.len() ==> (#[trigger] p.strings@[x])@.len() <= 255,
                    str_cells_ok(*p),
                    cells_distinct(*p),
                    n_str_values(p.values@) == n_str_values(pl0.values@) + (p.strings@.len() - pl0.strings@.len()),
                    forall|vv: int|
                        pl0.values@.len() <= vv < p.values@.len() ==> fresh_ref((#[trigger] p.values@[vv]).str_cell, pl0.strings@.len()),
                    forall|jj: int|
                        0 <= jj < j ==> {
                            let v = #[trigger] p.values@[start + jj];
                            &&& value_rec_of(*p, v, i as int, m@.vals[jj])
                            &&& v.instance == Some((first + jj) as usize)
                        },
                decreases n - j,
            {
                let v = m.val_at(j);
                let ghost pb = *p;
                let str_cell = match &v {
                    crate::codec::Value::Str(s) => Some(fresh_str(p, text_bytes(s.as_str()))),
                    _ => None,
                };
                let ghost pm = *p;
                p.values.push(ValueRec { slot: v.slot(), str_cell, metric: i, instance: Some(first + j) });
                proof {
                    lemma_n_str_push(pm.values@, p.values@.last());
                    assert(p.values@ == pm.values@.push(p.values@.last()));
                    assert forall|vv: int|
                        pl0.values@.len() <= vv < p.values@.len() implies fresh_ref((#[trigger] p.values@[vv]).str_cell, pl0.strings@.len()) by {
                        if vv < pb.values@.len() {
                            assert(p.values@[vv] == pb.values@[vv]);
                        }
                    }
                    assert forall|a: int| 0 <= a < p.values@.len() implies idx_ok((#[trigger] p.values@[a]).str_cell, p.strings@.len()) by {
                        if a < pb.values@.len() {
                            assert(p.values@[a] == pb.values@[a]);
                        }
                    }
                    assert forall|a: int, b: int|
                        0 <= a < b < p.values@.len() && (#[trigger] p.values@[a]).str_cell is Some implies p.values@[a].str_cell
                            != (#[trigger] p.values@[b]).str_cell by {
                        assert(p.values@[a] == pb.values@[a]);
                        if b < pb.values@.len() {
                            assert(p.values@[b] == pb.values@[b]);
                        }
                    }
                    assert forall|jj: int| 0 <= jj < j + 1 implies {
                        let v = #[trigger] p.values@[start + jj];
                        &&& value_rec_of(*p, v, i as int, m@.vals[jj])
                        &&& v.instance == Some((first + jj) as usize)
                    } by {
                        if jj < j {
                            assert(p.values@[start + jj] == pb.values@[start + jj]);
                            lemma_value_rec_grows(pb, *p, pb.values@[start + jj], i as int, m@.vals[jj]);
                        }
                    }
                }
                j = j + 1;
            }
        },
    }
}

/// Prefixes of help block lists.
pub open spec fn helps_grow(a: Seq<usize>, b: Seq<usize>) -> bool {
    &&& a.len() <= b.len()
    &&& forall|x: int| 0 <= x < a.len() ==> #[trigger] b[x] == a[x]
}

proof fn lemma_in_helps_grow(r: Option<usize>, a: Seq<usize>, b: Seq<usize>)
    requires
        helps_grow(a, b),
        in_helps(r, a),
    ensures
        in_helps(r, b),
{
    if let Some(k) = r {
        let w = choose|w: int| 0 <= w < a.len() && a[w] == k;
        assert(b[w] == k);
    }
}

#[verifier::rlimit(100)]
proof fn lemma_done_plan(r0: Registration, r3: Registration, ds: Seq<DeclView>, i: nat, ver: Version, pl1: Plan, pl2: Plan)
    requires
        plan_ok(r0.plan),
        plan_size(r0.plan) <= cost(ds, i),
        r0.plan.values@.len() + decl_count(ds[i as int]) == r3.plan.values@.len(),
        i < ds.len(),
        cost(ds, ds.len()) <= 0xffff_ffff,
        cost(ds, i + 1) <= 0xffff_ffff,
        cost(ds, i + 1) == cost(ds, i) + 7 + 4 * decl_count(ds[i as int]),
        metric_ok(decl_metric(ds[i as int])),
        grows(r0.plan, pl1),
        grows(pl1, pl2),
        grows(pl2, r3.plan),
        pl1.metrics@ == r0.plan.metrics@.push(pl1.metrics@[i as int]),
        r0.plan.metrics@.len() == i,
        metric_rec_of(pl1, ver, pl1.metrics@[i as int], decl_metric(ds[i as int])),
        in_helps(pl1.metrics@[i as int].short_str, r3.help_strs@),
        in_helps(pl1.metrics@[i as int].long_str, r3.help_strs@),
        helps_grow(r0.help_strs@, r3.help_strs@),
        helps_distinct(pl2, r3.help_strs@),
        pl1.values@ == r0.plan.values@,
        pl2.values@ == pl1.values@,
        pl2.metrics@ == pl1.metrics@,
        r3.plan.metrics@ == pl2.metrics@,
        r3.plan.indoms@ == pl2.indoms@,
        r3.plan.instances@ == pl2.instances@,
        pl1.indoms@ == r0.plan.indoms@,
        pl1.instances@ == r0.plan.instances@,
        r3.value_start@ == r0.value_start@.push(r0.plan.values@.len() as usize),
        decl_values_ok(r3.plan, ds[i as int], i as int, r0.plan.values@.len() as int),
        r3.plan.values@.len() == r0.plan.values@.len() + decl_count(ds[i as int]),
        r3.indom_src@.len() == pl2.indoms@.len(),
        forall|k: int| 0 <= k < pl2.indoms@.len() ==> (#[trigger] r3.indom_src@[k]) <= i && indom_rec_of(
            pl2,
            ver,
            k,
            ds[r3.indom_src@[k] as int],
        ),
        forall|a: int, b: int| 0 <= a < b < pl2.indoms@.len() ==> pl2.indoms@[a].id != pl2.indoms@[b].id,
        forall|k: int| 0 <= k < pl2.indoms@.len() ==> in_helps((#[trigger] pl2.indoms@[k]).short_str, r3.help_strs@)
            && in_helps(pl2.indoms@[k].long_str, r3.help_strs@),
        forall|x: int| 0 <= x < pl2.instances@.len() ==> inst_ok(pl2, x),
        forall|x: int| r0.plan.strings@.len() <= x < pl1.strings@.len() ==> (#[trigger] pl1.strings@[x])@.len() <= 255,
        forall|x: int| pl1.strings@.len() <= x < pl2.strings@.len() ==> (#[trigger] pl2.strings@[x])@.len() <= 255,
        forall|x: int| pl2.strings@.len() <= x < r3.plan.strings@.len() ==> (#[trigger] r3.plan.strings@[x])@.len() <= 255,
        plan_size(r3.plan) <= plan_size(r0.plan) + 7 + 4 * decl_count(ds[i as int]),
        cells_distinct(r3.plan),
        runs_ok(pl2),
    ensures
        plan_ok(r3.plan),
        plan_size(r3.plan) <= cost(ds, i + 1),
{
    let pl0 = r0.plan;
    let pl3 = r3.plan;
    let h0 = r0.help_strs@;
    let h3 = r3.help_strs@;
    let dt = ds.take(i as int);
    let dt1 = ds.take(i as int + 1);
    lemma_grows_trans(pl0, pl1, pl2);
    lemma_grows_trans(pl0, pl2, pl3);
    lemma_grows_trans(pl1, pl2, pl3);
    // limits of the plan
    assert(plan_size(pl3) <= cost(ds, (i + 1) as nat));
    assert forall|x: int| 0 <= x < pl3.strings@.len() implies (#[trigger] pl3.strings@[x])@.len() <= 255 by {
        if x < pl0.strings@.len() {
            assert(pl0.strings@[x] == pl3.strings@[x]);
        } else if x < pl1.strings@.len() {
            assert(pl1.strings@[x] == pl3.strings@[x]);
        } else if x < pl2.strings@.len() {
            assert(pl2.strings@[x] == pl3.strings@[x]);
        }
    }
    assert forall|x: int| 0 <= x < pl3.metrics@.len() implies {
        let mm = #[trigger] pl3.metrics@[x];
        &&& mm.name@.len() <= 63
        &&& idx_ok(mm.name_str, pl3.strings@.len())
        &&& idx_ok(mm.short_str, pl3.strings@.len())
        &&& idx_ok(mm.long_str, pl3.strings@.len())
    } by {
        if x < pl0.metrics@.len() {
            assert(pl3.metrics@[x] == pl0.metrics@[x]);
        } else {
            assert(pl3.metrics@[x] == pl1.metrics@[x]);
        }
    }
    assert forall|x: int| 0 <= x < pl3.instances@.len() implies {
        let ii = #[trigger] pl3.instances@[x];
        &&& ii.name@.len() <= 63
        &&& ii.indom < pl3.indoms@.len()
        &&& idx_ok(ii.name_str, pl3.strings@.len())
    } by {
        assert(pl3.instances@[x] == pl2.instances@[x]);
        assert(inst_ok(pl2, x));
    }
    assert forall|x: int| 0 <= x < pl3.indoms@.len() implies {
        let dd = #[trigger] pl3.indoms@[x];
        &&& dd.first <= pl3.instances@.len()
        &&& idx_ok(dd.short_str, pl3.strings@.len())
        &&& idx_ok(dd.long_str, pl3.strings@.len())
    } by {
        assert(pl3.indoms@[x] == pl2.indoms@[x]);
        assert(indom_rec_of(pl2, ver, x, ds[r3.indom_src@[x] as int]));
    }
    assert forall|x: int| 0 <= x < pl3.values@.len() implies {
        let vv = #[trigger] pl3.values@[x];
        &&& vv.metric < pl3.metrics@.len()
        &&& idx_ok(vv.instance, pl3.instances@.len())
        &&& idx_ok(vv.str_cell, pl3.strings@.len())
    } by {
        if x < pl0.values@.len() {
            assert(pl3.values@[x] == pl0.values@[x]);
        } else {
            let j = x - pl2.values@.len();
            match ds[i as int] {
                DeclView::Single(_) => {},
                DeclView::Multi(mm) => {
                    assert(pl3.values@[pl2.values@.len() + j] == pl3.values@[x]);
                },
            }
        }
    }
    assert(plan_ok(pl3));
}

#[verifier::rlimit(100)]
proof fn lemma_done_part0(r0: Registration, r3: Registration, ds: Seq<DeclView>, i: nat, ver: Version, pl1: Plan, pl2: Plan)
    requires
        prefix_ok(r0, ds, i, ver),
        i < ds.len(),
        cost(ds, ds.len()) <= 0xffff_ffff,
        cost(ds, i + 1) <= 0xffff_ffff,
        cost(ds, i + 1) == cost(ds, i) + 7 + 4 * decl_count(ds[i as int]),
        metric_ok(decl_metric(ds[i as int])),
        grows(r0.plan, pl1),
        grows(pl1, pl2),
        grows(pl2, r3.plan),
        pl1.metrics@ == r0.plan.metrics@.push(pl1.metrics@[i as int]),
        r0.plan.metrics@.len() == i,
        metric_rec_of(pl1, ver, pl1.metrics@[i as int], decl_metric(ds[i as int])),
        in_helps(pl1.metrics@[i as int].short_str, r3.help_strs@),
        in_helps(pl1.metrics@[i as int].long_str, r3.help_strs@),
        helps_grow(r0.help_strs@, r3.help_strs@),
        helps_distinct(pl2, r3.help_strs@),
        pl1.values@ == r0.plan.values@,
        pl2.values@ == pl1.values@,
        pl2.metrics@ == pl1.metrics@,
        r3.plan.metrics@ == pl2.metrics@,
        r3.plan.indoms@ == pl2.indoms@,
        r3.plan.instances@ == pl2.instances@,
        pl1.indoms@ == r0.plan.indoms@,
        pl1.instances@ == r0.plan.instances@,
        r3.value_start@ == r0.value_start@.push(r0.plan.values@.len() as usize),
        decl_values_ok(r3.plan, ds[i as int], i as int, r0.plan.values@.len() as int),
        r3.plan.values@.len() == r0.plan.values@.len() + decl_count(ds[i as int]),
        r3.indom_src@.len() == pl2.indoms@.len(),
        forall|k: int| 0 <= k < pl2.indoms@.len() ==> (#[trigger] r3.indom_src@[k]) <= i && indom_rec_of(
            pl2,
            ver,
            k,
            ds[r3.indom_src@[k] as int],
        ),
        forall|a: int, b: int| 0 <= a < b < pl2.indoms@.len() ==> pl2.indoms@[a].id != pl2.indoms@[b].id,
        forall|k: int| 0 <= k < pl2.indoms@.len() ==> in_helps((#[trigger] pl2.indoms@[k]).short_str, r3.help_strs@)
            && in_helps(pl2.indoms@[k].long_str, r3.help_strs@),
        forall|x: int| 0 <= x < pl2.instances@.len() ==> inst_ok(pl2, x),
        forall|x: int| r0.plan.strings@.len() <= x < pl1.strings@.len() ==> (#[trigger] pl1.strings@[x])@.len() <= 255,
        forall|x: int| pl1.strings@.len() <= x < pl2.strings@.len() ==> (#[trigger] pl2.strings@[x])@.len() <= 255,
        forall|x: int| pl2.strings@.len() <= x < r3.plan.strings@.len() ==> (#[trigger] r3.plan.strings@[x])@.len() <= 255,
        plan_size(r3.plan) <= plan_size(r0.plan) + 7 + 4 * decl_count(ds[i as int]),
        cells_distinct(r3.plan),
        runs_ok(pl2),
    ensures
        forall|x: int| 0 <= x < i + 1 ==> metric_rec_of(r3.plan, ver, #[trigger] r3.plan.metrics@[x], decl_metric(ds[x])),
{
    lemma_prefix_core(r0, ds, i, ver);
    lemma_prefix_decls_a(r0, ds, i, ver);
    let pl0 = r0.plan;
    let pl3 = r3.plan;
    let h0 = r0.help_strs@;
    let h3 = r3.help_strs@;
    let dt = ds.take(i as int);
    let dt1 = ds.take(i as int + 1);
    lemma_grows_trans(pl0, pl1, pl2);
    lemma_grows_trans(pl0, pl2, pl3);
    lemma_grows_trans(pl1, pl2, pl3);
    assert forall|x: int| 0 <= x < dt1.len() implies metric_rec_of(pl3, ver, #[trigger] pl3.metrics@[x], decl_metric(dt1[x])) by {
        assert(dt1[x] == ds[x]);
        if x < i {
            assert(dt[x] == ds[x]);
            assert(pl3.metrics@[x] == pl0.metrics@[x]);
            lemma_metric_rec_grows(pl0, pl3, ver, pl0.metrics@[x], decl_metric(ds[x]));
        } else {
            assert(pl3.metrics@[x] == pl1.metrics@[x]);
            lemma_metric_rec_grows(pl1, pl3, ver, pl1.metrics@[x], decl_metric(ds[i as int]));
        }
    }
    assert(forall|x: int| 0 <= x < i + 1 ==> metric_rec_of(r3.plan, ver, #[trigger] r3.plan.metrics@[x], decl_metric(ds[x])));
}

#[verifier::rlimit(100)]
proof fn lemma_done_part1(r0: Registration, r3: Registration, ds: Seq<DeclView>, i: nat, ver: Version, pl1: Plan, pl2: Plan)
    requires
        prefix_ok(r0, ds, i, ver),
        i < ds.len(),
        cost(ds, ds.len()) <= 0xffff_ffff,
        cost(ds, i + 1) <= 0xffff_ffff,
        cost(ds, i + 1) == cost(ds, i) + 7 + 4 * decl_count(ds[i as int]),
        metric_ok(decl_metric(ds[i as int])),
        grows(r0.plan, pl1),
        grows(pl1, pl2),
        grows(pl2, r3.plan),
        pl1.metrics@ == r0.plan.metrics@.push(pl1.metrics@[i as int]),
        r0.plan.metrics@.len() == i,
        metric_rec_of(pl1, ver, pl1.metrics@[i as int], decl_metric(ds[i as int])),
        in_helps(pl1.metrics@[i as int].short_str, r3.help_strs@),
        in_helps(pl1.metrics@[i as int].long_str, r3.help_strs@),
        helps_grow(r0.help_strs@, r3.help_strs@),
        helps_distinct(pl2, r3.help_strs@),
        pl1.values@ == r0.plan.values@,
        pl2.values@ == pl1.values@,
        pl2.metrics@ == pl1.metrics@,
        r3.plan.metrics@ == pl2.metrics@,
        r3.plan.indoms@ == pl2.indoms@,
        r3.plan.instances@ == pl2.instances@,
        pl1.indoms@ == r0.plan.indoms@,
        pl1.instances@ == r0.plan.instances@,
        r3.value_start@ == r0.value_start@.push(r0.plan.values@.len() as usize),
        decl_values_ok(r3.plan, ds[i as int], i as int, r0.plan.values@.len() as int),
        r3.plan.values@.len() == r0.plan.values@.len() + decl_count(ds[i as int]),
        r3.indom_src@.len() == pl2.indoms@.len(),
        forall|k: int| 0 <= k < pl2.indoms@.len() ==> (#[trigger] r3.indom_src@[k]) <= i && indom_rec_of(
            pl2,
            ver,
            k,
            ds[r3.indom_src@[k] as int],
        ),
        forall|a: int, b: int| 0 <= a < b < pl2.indoms@.len() ==> pl2.indoms@[a].id != pl2.indoms@[b].id,
        forall|k: int| 0 <= k < pl2.indoms@.len() ==> in_helps((#[trigger] pl2.indoms@[k]).short_str, r3.help_strs@)
            && in_helps(pl2.indoms@[k].long_str, r3.help_strs@),
        forall|x: int| 0 <= x < pl2.instances@.len() ==> inst_ok(pl2, x),
        forall|x: int| r0.plan.strings@.len() <= x < pl1.strings@.len() ==> (#[trigger] pl1.strings@[x])@.len() <= 255,
        forall|x: int| pl1.strings@.len() <= x < pl2.strings@.len() ==> (#[trigger] pl2.strings@[x])@.len() <= 255,
        forall|x: int| pl2.strings@.len() <= x < r3.plan.strings@.len() ==> (#[trigger] r3.plan.strings@[x])@.len() <= 255,
        plan_size(r3.plan) <= plan_size(r0.plan) + 7 + 4 * decl_count(ds[i as int]),
        cells_distinct(r3.plan),
        runs_ok(pl2),
    ensures
        forall|x: int| 0 <= x < i + 1 ==> decl_values_ok(r3.plan, ds[x], x, #[trigger] r3.value_start@[x] as int),
{
    lemma_prefix_core(r0, ds, i, ver);
    lemma_prefix_decls_a(r0, ds, i, ver);
    lemma_prefix_decls_b(r0, ds, i, ver);
    let pl0 = r0.plan;
    let pl3 = r3.plan;
    let h0 = r0.help_strs@;
    let h3 = r3.help_strs@;
    let dt = ds.take(i as int);
    let dt1 = ds.take(i as int + 1);
    lemma_grows_trans(pl0, pl1, pl2);
    lemma_grows_trans(pl0, pl2, pl3);
    lemma_grows_trans(pl1, pl2, pl3);
    assert forall|x: int| 0 <= x < dt1.len() implies decl_values_ok(pl3, dt1[x], x, #[trigger] r3.value_start@[x] as int) by {
        assert(dt1[x] == ds[x]);
        if x < i {
            assert(dt[x] == ds[x]);
            assert(r3.value_start@[x] == r0.value_start@[x]);
            assert(decl_values_ok(pl0, dt[x], x, r0.value_start@[x] as int));
            lemma_decl_values_grows(pl0, pl3, ds[x], x, r0.value_start@[x] as int);
        }
    }
    assert(forall|x: int| 0 <= x < i + 1 ==> decl_values_ok(r3.plan, ds[x], x, #[trigger] r3.value_start@[x] as int));
}

#[verifier::rlimit(100)]
proof fn lemma_done_part2(r0: Registration, r3: Registration, ds: Seq<DeclView>, i: nat, ver: Version, pl1: Plan, pl2: Plan)
    requires
        prefix_ok(r0, ds, i, ver),
        i < ds.len(),
        cost(ds, ds.len()) <= 0xffff_ffff,
        cost(ds, i + 1) <= 0xffff_ffff,
        cost(ds, i + 1) == cost(ds, i) + 7 + 4 * decl_count(ds[i as int]),
        metric_ok(decl_metric(ds[i as int])),
        grows(r0.plan, pl1),
        grows(pl1, pl2),
        grows(pl2, r3.plan),
        pl1.metrics@ == r0.plan.metrics@.push(pl1.metrics@[i as int]),
        r0.plan.metrics@.len() == i,
        metric_rec_of(pl1, ver, pl1.metrics@[i as int], decl_metric(ds[i as int])),
        in_helps(pl1.metrics@[i as int].short_str, r3.help_strs@),
        in_helps(pl1.metrics@[i as int].long_str, r3.help_strs@),
        helps_grow(r0.help_strs@, r3.help_strs@),
        helps_distinct(pl2, r3.help_strs@),
        pl1.values@ == r0.plan.values@,
        pl2.values@ == pl1.values@,
        pl2.metrics@ == pl1.metrics@,
        r3.plan.metrics@ == pl2.metrics@,
        r3.plan.indoms@ == pl2.indoms@,
        r3.plan.instances@ == pl2.instances@,
        pl1.indoms@ == r0.plan.indoms@,
        pl1.instances@ == r0.plan.instances@,
        r3.value_start@ == r0.value_start@.push(r0.plan.values@.len() as usize),
        decl_values_ok(r3.plan, ds[i as int], i as int, r0.plan.values@.len() as int),
        r3.plan.values@.len() == r0.plan.values@.len() + decl_count(ds[i as int]),
        r3.indom_src@.len() == pl2.indoms@.len(),
        forall|k: int| 0 <= k < pl2.indoms@.len() ==> (#[trigger] r3.indom_src@[k]) <= i && indom_rec_of(
            pl2,
            ver,
            k,
            ds[r3.indom_src@[k] as int],
        ),
        forall|a: int, b: int| 0 <= a < b < pl2.indoms@.len() ==> pl2.indoms@[a].id != pl2.indoms@[b].id,
        forall|k: int| 0 <= k < pl2.indoms@.len() ==> in_helps((#[trigger] pl2.indoms@[k]).short_str, r3.help_strs@)
            && in_helps(pl2.indoms@[k].long_str, r3.help_strs@),
        forall|x: int| 0 <= x < pl2.instances@.len() ==> inst_ok(pl2, x),
        forall|x: int| r0.plan.strings@.len() <= x < pl1.strings@.len() ==> (#[trigger] pl1.strings@[x])@.len() <= 255,
        forall|x: int| pl1.strings@.len() <= x < pl2.strings@.len() ==> (#[trigger] pl2.strings@[x])@.len() <= 255,
        forall|x: int| pl2.strings@.len() <= x < r3.plan.strings@.len() ==> (#[trigger] r3.plan.strings@[x])@.len() <= 255,
        plan_size(r3.plan) <= plan_size(r0.plan) + 7 + 4 * decl_count(ds[i as int]),
        cells_distinct(r3.plan),
        runs_ok(pl2),
    ensures
        forall|x: int| 0 <= x < i + 1 ==> #[trigger] r3.value_start@[x] + decl_count(ds[x]) == (if x + 1 < i + 1 { r3.value_start@[x + 1] as int } else { r3.plan.values@.len() as int }),
{
    lemma_prefix_core(r0, ds, i, ver);
    lemma_prefix_decls_a(r0, ds, i, ver);
    lemma_prefix_decls_c(r0, ds, i, ver);
    let pl0 = r0.plan;
    let pl3 = r3.plan;
    let h0 = r0.help_strs@;
    let h3 = r3.help_strs@;
    let dt = ds.take(i as int);
    let dt1 = ds.take(i as int + 1);
    lemma_grows_trans(pl0, pl1, pl2);
    lemma_grows_trans(pl0, pl2, pl3);
    lemma_grows_trans(pl1, pl2, pl3);
    assert forall|x: int| 0 <= x < dt1.len() implies #[trigger] r3.value_start@[x] + decl_count(dt1[x]) == (if x + 1
        < dt1.len() {
        r3.value_start@[x + 1] as int
    } else {
        pl3.values@.len() as int
    }) by {
        assert(dt1[x] == ds[x]);
        if x < i {
            assert(dt[x] == ds[x]);
            assert(r3.value_start@[x] == r0.value_start@[x]);
            assert(r0.value_start@[x] + decl_count(dt[x]) == (if x + 1 < dt.len() {
                r0.value_start@[x + 1] as int
            } else {
                pl0.values@.len() as int
            }));
        }
    }
    assert(forall|x: int| 0 <= x < i + 1 ==> #[trigger] r3.value_start@[x] + decl_count(ds[x]) == (if x + 1 < i + 1 { r3.value_start@[x + 1] as int } else { r3.plan.values@.len() as int }));
}

#[verifier::rlimit(100)]
proof fn lemma_done_part3(r0: Registration, r3: Registration, ds: Seq<DeclView>, i: nat, ver: Version, pl1: Plan, pl2: Plan)
    requires
        prefix_ok(r0, ds, i, ver),
        i < ds.len(),
        cost(ds, ds.len()) <= 0xffff_ffff,
        cost(ds, i + 1) <= 0xffff_ffff,
        cost(ds, i + 1) == cost(ds, i) + 7 + 4 * decl_count(ds[i as int]),
        metric_ok(decl_metric(ds[i as int])),
        grows(r0.plan, pl1),
        grows(pl1, pl2),
        grows(pl2, r3.plan),
        pl1.metrics@ == r0.plan.metrics@.push(pl1.metrics@[i as int]),
        r0.plan.metrics@.len() == i,
        metric_rec_of(pl1, ver, pl1.metrics@[i as int], decl_metric(ds[i as int])),
        in_helps(pl1.metrics@[i as int].short_str, r3.help_strs@),
        in_helps(pl1.metrics@[i as int].long_str, r3.help_strs@),
        helps_grow(r0.help_strs@, r3.help_strs@),
        helps_distinct(pl2, r3.help_strs@),
        pl1.values@ == r0.plan.values@,
        pl2.values@ == pl1.values@,
        pl2.metrics@ == pl1.metrics@,
        r3.plan.metrics@ == pl2.metrics@,
        r3.plan.indoms@ == pl2.indoms@,
        r3.plan.instances@ == pl2.instances@,
        pl1.indoms@ == r0.plan.indoms@,
        pl1.instances@ == r0.plan.instances@,
        r3.value_start@ == r0.value_start@.push(r0.plan.values@.len() as usize),
        decl_values_ok(r3.plan, ds[i as int], i as int, r0.plan.values@.len() as int),
        r3.plan.values@.len() == r0.plan.values@.len() + decl_count(ds[i as int]),
        r3.indom_src@.len() == pl2.indoms@.len(),
        forall|k: int| 0 <= k < pl2.indoms@.len() ==> (#[trigger] r3.indom_src@[k]) <= i && indom_rec_of(
            pl2,
            ver,
            k,
            ds[r3.indom_src@[k] as int],
        ),
        forall|a: int, b: int| 0 <= a < b < pl2.indoms@.len() ==> pl2.indoms@[a].id != pl2.indoms@[b].id,
        forall|k: int| 0 <= k < pl2.indoms@.len() ==> in_helps((#[trigger] pl2.indoms@[k]).short_str, r3.help_strs@)
            && in_helps(pl2.indoms@[k].long_str, r3.help_strs@),
        forall|x: int| 0 <= x < pl2.instances@.len() ==> inst_ok(pl2, x),
        forall|x: int| r0.plan.strings@.len() <= x < pl1.strings@.len() ==> (#[trigger] pl1.strings@[x])@.len() <= 255,
        forall|x: int| pl1.strings@.len() <= x < pl2.strings@.len() ==> (#[trigger] pl2.strings@[x])@.len() <= 255,
        forall|x: int| pl2.strings@.len() <= x < r3.plan.strings@.len() ==> (#[trigger] r3.plan.strings@[x])@.len() <= 255,
        plan_size(r3.plan) <= plan_size(r0.plan) + 7 + 4 * decl_count(ds[i as int]),
        cells_distinct(r3.plan),
        runs_ok(pl2),
    ensures
        forall|x: int| 0 <= x < r3.plan.indoms@.len() ==> #[trigger] r3.indom_src@[x] < i + 1 && indom_rec_of(r3.plan, ver, x, ds[r3.indom_src@[x] as int]),
{
    lemma_prefix_core(r0, ds, i, ver);
    let pl0 = r0.plan;
    let pl3 = r3.plan;
    let h0 = r0.help_strs@;
    let h3 = r3.help_strs@;
    let dt = ds.take(i as int);
    let dt1 = ds.take(i as int + 1);
    lemma_grows_trans(pl0, pl1, pl2);
    lemma_grows_trans(pl0, pl2, pl3);
    lemma_grows_trans(pl1, pl2, pl3);
    assert forall|x: int| 0 <= x < pl3.indoms@.len() implies #[trigger] r3.indom_src@[x] < dt1.len() && indom_rec_of(
        pl3,
        ver,
        x,
        dt1[r3.indom_src@[x] as int],
    ) by {
        assert(indom_rec_of(pl2, ver, x, ds[r3.indom_src@[x] as int]));
        lemma_indom_rec_grows(pl2, pl3, ver, x, ds[r3.indom_src@[x] as int]);
    }
    assert(forall|x: int| 0 <= x < r3.plan.indoms@.len() ==> #[trigger] r3.indom_src@[x] < i + 1 && indom_rec_of(r3.plan, ver, x, ds[r3.indom_src@[x] as int]));
}

#[verifier::rlimit(100)]
proof fn lemma_done_part4(r0: Registration, r3: Registration, ds: Seq<DeclView>, i: nat, ver: Version, pl1: Plan, pl2: Plan)
    requires
        prefix_ok(r0, ds, i, ver),
        i < ds.len(),
        cost(ds, ds.len()) <= 0xffff_ffff,
        cost(ds, i + 1) <= 0xffff_ffff,
        cost(ds, i + 1) == cost(ds, i) + 7 + 4 * decl_count(ds[i as int]),
        metric_ok(decl_metric(ds[i as int])),
        grows(r0.plan, pl1),
        grows(pl1, pl2),
        grows(pl2, r3.plan),
        pl1.metrics@ == r0.plan.metrics@.push(pl1.metrics@[i as int]),
        r0.plan.metrics@.len() == i,
        metric_rec_of(pl1, ver, pl1.metrics@[i as int], decl_metric(ds[i as int])),
        in_helps(pl1.metrics@[i as int].short_str, r3.help_strs@),
        in_helps(pl1.metrics@[i as int].long_str, r3.help_strs@),
        helps_grow(r0.help_strs@, r3.help_strs@),
        helps_distinct(pl2, r3.help_strs@),
        pl1.values@ == r0.plan.values@,
        pl2.values@ == pl1.values@,
        pl2.metrics@ == pl1.metrics@,
        r3.plan.metrics@ == pl2.metrics@,
        r3.plan.indoms@ == pl2.indoms@,
        r3.plan.instances@ == pl2.instances@,
        pl1.indoms@ == r0.plan.indoms@,
        pl1.instances@ == r0.plan.instances@,
        r3.value_start@ == r0.value_start@.push(r0.plan.values@.len() as usize),
        decl_values_ok(r3.plan, ds[i as int], i as int, r0.plan.values@.len() as int),
        r3.plan.values@.len() == r0.plan.values@.len() + decl_count(ds[i as int]),
        r3.indom_src@.len() == pl2.indoms@.len(),
        forall|k: int| 0 <= k < pl2.indoms@.len() ==> (#[trigger] r3.indom_src@[k]) <= i && indom_rec_of(
            pl2,
            ver,
            k,
            ds[r3.indom_src@[k] as int],
        ),
        forall|a: int, b: int| 0 <= a < b < pl2.indoms@.len() ==> pl2.indoms@[a].id != pl2.indoms@[b].id,
        forall|k: int| 0 <= k < pl2.indoms@.len() ==> in_helps((#[trigger] pl2.indoms@[k]).short_str, r3.help_strs@)
            && in_helps(pl2.indoms@[k].long_str, r3.help_strs@),
        forall|x: int| 0 <= x < pl2.instances@.len() ==> inst_ok(pl2, x),
        forall|x: int| r0.plan.strings@.len() <= x < pl1.strings@.len() ==> (#[trigger] pl1.strings@[x])@.len() <= 255,
        forall|x: int| pl1.strings@.len() <= x < pl2.strings@.len() ==> (#[trigger] pl2.strings@[x])@.len() <= 255,
        forall|x: int| pl2.strings@.len() <= x < r3.plan.strings@.len() ==> (#[trigger] r3.plan.strings@[x])@.len() <= 255,
        plan_size(r3.plan) <= plan_size(r0.plan) + 7 + 4 * decl_count(ds[i as int]),
        cells_distinct(r3.plan),
        runs_ok(pl2),
    ensures
        forall|x: int| 0 <= x < r3.plan.metrics@.len() ==> in_helps((#[trigger] r3.plan.metrics@[x]).short_str, r3.help_strs@) && in_helps(r3.plan.metrics@[x].long_str, r3.help_strs@),
{
    lemma_prefix_core(r0, ds, i, ver);
    lemma_prefix_decls_a(r0, ds, i, ver);
    let pl0 = r0.plan;
    let pl3 = r3.plan;
    let h0 = r0.help_strs@;
    let h3 = r3.help_strs@;
    let dt = ds.take(i as int);
    let dt1 = ds.take(i as int + 1);
    lemma_grows_trans(pl0, pl1, pl2);
    lemma_grows_trans(pl0, pl2, pl3);
    lemma_grows_trans(pl1, pl2, pl3);
    assert forall|x: int| 0 <= x < pl3.metrics@.len() implies in_helps((#[trigger] pl3.metrics@[x]).short_str, h3) && in_helps(
        pl3.metrics@[x].long_str,
        h3,
    ) by {
        if x < i {
            assert(pl3.metrics@[x] == pl0.metrics@[x]);
            lemma_in_helps_grow(pl0.metrics@[x].short_str, h0, h3);
            lemma_in_helps_grow(pl0.metrics@[x].long_str, h0, h3);
        } else {
            assert(pl3.metrics@[x] == pl1.metrics@[i as int]);
        }
    }
    assert(forall|x: int| 0 <= x < r3.plan.metrics@.len() ==> in_helps((#[trigger] r3.plan.metrics@[x]).short_str, r3.help_strs@) && in_helps(r3.plan.metrics@[x].long_str, r3.help_strs@));
}

#[verifier::rlimit(100)]
proof fn lemma_register_one_done(r0: Registration, r3: Registration, ds: Seq<DeclView>, i: nat, ver: Version, pl1: Plan, pl2: Plan)
    requires
        prefix_ok(r0, ds, i, ver),
        i < ds.len(),
        cost(ds, ds.len()) <= 0xffff_ffff,
        cost(ds, i + 1) <= 0xffff_ffff,
        cost(ds, i + 1) == cost(ds, i) + 7 + 4 * decl_count(ds[i as int]),
        metric_ok(decl_metric(ds[i as int])),
        grows(r0.plan, pl1),
        grows(pl1, pl2),
        grows(pl2, r3.plan),
        pl1.metrics@ == r0.plan.metrics@.push(pl1.metrics@[i as int]),
        r0.plan.metrics@.len() == i,
        metric_rec_of(pl1, ver, pl1.metrics@[i as int], decl_metric(ds[i as int])),
        in_helps(pl1.metrics@[i as int].short_str, r3.help_strs@),
        in_helps(pl1.metrics@[i as int].long_str, r3.help_strs@),
        helps_grow(r0.help_strs@, r3.help_strs@),
        helps_distinct(pl2, r3.help_strs@),
        pl1.values@ == r0.plan.values@,
        pl2.values@ == pl1.values@,
        pl2.metrics@ == pl1.metrics@,
        r3.plan.metrics@ == pl2.metrics@,
        r3.plan.indoms@ == pl2.indoms@,
        r3.plan.instances@ == pl2.instances@,
        pl1.indoms@ == r0.plan.indoms@,
        pl1.instances@ == r0.plan.instances@,
        r3.value_start@ == r0.value_start@.push(r0.plan.values@.len() as usize),
        decl_values_ok(r3.plan, ds[i as int], i as int, r0.plan.values@.len() as int),
        r3.plan.values@.len() == r0.plan.values@.len() + decl_count(ds[i as int]),
        r3.indom_src@.len() == pl2.indoms@.len(),
        forall|k: int| 0 <= k < pl2.indoms@.len() ==> (#[trigger] r3.indom_src@[k]) <= i && indom_rec_of(
            pl2,
            ver,
            k,
            ds[r3.indom_src@[k] as int],
        ),
        forall|a: int, b: int| 0 <= a < b < pl2.indoms@.len() ==> pl2.indoms@[a].id != pl2.indoms@[b].id,
        forall|k: int| 0 <= k < pl2.indoms@.len() ==> in_helps((#[trigger] pl2.indoms@[k]).short_str, r3.help_strs@)
            && in_helps(pl2.indoms@[k].long_str, r3.help_strs@),
        forall|x: int| 0 <= x < pl2.instances@.len() ==> inst_ok(pl2, x),
        forall|x: int| r0.plan.strings@.len() <= x < pl1.strings@.len() ==> (#[trigger] pl1.strings@[x])@.len() <= 255,
        forall|x: int| pl1.strings@.len() <= x < pl2.strings@.len() ==> (#[trigger] pl2.strings@[x])@.len() <= 255,
        forall|x: int| pl2.strings@.len() <= x < r3.plan.strings@.len() ==> (#[trigger] r3.plan.strings@[x])@.len() <= 255,
        plan_size(r3.plan) <= plan_size(r0.plan) + 7 + 4 * decl_count(ds[i as int]),
        cells_distinct(r3.plan),
        runs_ok(pl2),
        strings_ok(r3.plan, r3.help_strs@, ver),
    ensures
        prefix_ok(r3, ds, i + 1, ver),
{
    lemma_prefix_facts(r0, ds, i, ver);
    lemma_done_plan(r0, r3, ds, i, ver, pl1, pl2);
    lemma_done_part0(r0, r3, ds, i, ver, pl1, pl2);
    lemma_done_part1(r0, r3, ds, i, ver, pl1, pl2);
    lemma_done_part2(r0, r3, ds, i, ver, pl1, pl2);
    lemma_done_part3(r0, r3, ds, i, ver, pl1, pl2);
    lemma_done_part4(r0, r3, ds, i, ver, pl1, pl2);
    let dt1 = ds.take(i as int + 1);
    assert forall|x: int| 0 <= x < dt1.len() implies #[trigger] dt1[x] == ds[x] by {}
    assert forall|k: int| 0 <= k < r3.indom_src@.len() implies (#[trigger] r3.indom_src@[k]) < i + 1 by {
        assert(r3.indom_src@[k] <= i);
    }
    assert(registration_ok(r3, dt1, ver));
    assert(prefix_ok(r3, ds, i + 1, ver)) by {
        reveal(prefix_ok);
    }
}

#[verifier::rlimit(100)]
proof fn lemma_prefix_core(r: Registration, ds: Seq<DeclView>, n: nat, ver: Version)
    requires
        prefix_ok(r, ds, n, ver),
    ensures
        n <= ds.len(),
        helps_distinct(r.plan, r.help_strs@),
        plan_size(r.plan) <= cost(ds, n),
        r.plan.metrics@.len() == n,
        r.indom_src@.len() == r.plan.indoms@.len(),
        forall|k: int| 0 <= k < r.plan.indoms@.len() ==> (#[trigger] r.indom_src@[k]) < n && indom_rec_of(
            r.plan,
            ver,
            k,
            ds[r.indom_src@[k] as int],
        ),
        forall|a: int, b: int| 0 <= a < b < r.plan.indoms@.len() ==> r.plan.indoms@[a].id != r.plan.indoms@[b].id,
        forall|k: int| 0 <= k < r.plan.indoms@.len() ==> in_helps((#[trigger] r.plan.indoms@[k]).short_str, r.help_strs@)
            && in_helps(r.plan.indoms@[k].long_str, r.help_strs@),
        forall|x: int| 0 <= x < r.plan.instances@.len() ==> inst_ok(r.plan, x),
        runs_ok(r.plan),
        str_cells_ok(r.plan),
        cells_distinct(r.plan),
        plan_ok(r.plan),
        strings_ok(r.plan, r.help_strs@, ver),
{
    reveal(prefix_ok);
}

#[verifier::rlimit(100)]
proof fn lemma_prefix_decls_a(r: Registration, ds: Seq<DeclView>, n: nat, ver: Version)
    requires
        prefix_ok(r, ds, n, ver),
    ensures
        r.value_start@.len() == n,
        forall|x: int| 0 <= x < n ==> metric_rec_of(r.plan, ver, #[trigger] r.plan.metrics@[x], decl_metric(ds[x])),
        forall|x: int| 0 <= x < r.plan.metrics@.len() ==> in_helps((#[trigger] r.plan.metrics@[x]).short_str, r.help_strs@)
            && in_helps(r.plan.metrics@[x].long_str, r.help_strs@),
{
    reveal(prefix_ok);
    assert forall|x: int| 0 <= x < n implies metric_rec_of(r.plan, ver, #[trigger] r.plan.metrics@[x], decl_metric(ds[x])) by {
        assert(ds.take(n as int)[x] == ds[x]);
    }
}

#[verifier::rlimit(100)]
proof fn lemma_prefix_decls_b(r: Registration, ds: Seq<DeclView>, n: nat, ver: Version)
    requires
        prefix_ok(r, ds, n, ver),
    ensures
        forall|x: int| 0 <= x < n ==> decl_values_ok(r.plan, ds[x], x, #[trigger] r.value_start@[x] as int),
{
    reveal(prefix_ok);
    assert forall|x: int| 0 <= x < n implies decl_values_ok(r.plan, ds[x], x, #[trigger] r.value_start@[x] as int) by {
        assert(ds.take(n as int)[x] == ds[x]);
    }
}

#[verifier::rlimit(100)]
proof fn lemma_prefix_decls_c(r: Registration, ds: Seq<DeclView>, n: nat, ver: Version)
    requires
        prefix_ok(r, ds, n, ver),
    ensures
        forall|x: int| 0 <= x < n ==> #[trigger] r.value_start@[x] + decl_count(ds[x]) == (if x + 1 < n {
            r.value_start@[x + 1] as int
        } else {
            r.plan.values@.len() as int
        }),
        n > 0 ==> r.value_start@[0] == 0,
        n == 0 ==> r.plan.values@.len() == 0,
{
    reveal(prefix_ok);
    assert forall|x: int| 0 <= x < n implies #[trigger] r.value_start@[x] + decl_count(ds[x]) == (if x + 1 < n {
        r.value_start@[x + 1] as int
    } else {
        r.plan.values@.len() as int
    }) by {
        assert(ds.take(n as int)[x] == ds[x]);
    }
}

proof fn lemma_prefix_decls(r: Registration, ds: Seq<DeclView>, n: nat, ver: Version)
    requires
        prefix_ok(r, ds, n, ver),
    ensures
        r.value_start@.len() == n,
        forall|x: int| 0 <= x < n ==> metric_rec_of(r.plan, ver, #[trigger] r.plan.metrics@[x], decl_metric(ds[x])),
        forall|x: int| 0 <= x < n ==> decl_values_ok(r.plan, ds[x], x, #[trigger] r.value_start@[x] as int),
        forall|x: int| 0 <= x < n ==> #[trigger] r.value_start@[x] + decl_count(ds[x]) == (if x + 1 < n {
            r.value_start@[x + 1] as int
        } else {
            r.plan.values@.len() as int
        }),
        n > 0 ==> r.value_start@[0] == 0,
        n == 0 ==> r.plan.values@.len() == 0,
        forall|x: int| 0 <= x < r.plan.metrics@.len() ==> in_helps((#[trigger] r.plan.metrics@[x]).short_str, r.help_strs@)
            && in_helps(r.plan.metrics@[x].long_str, r.help_strs@),
{
    lemma_prefix_decls_a(r, ds, n, ver);
    lemma_prefix_decls_b(r, ds, n, ver);
    lemma_prefix_decls_c(r, ds, n, ver);
}

proof fn lemma_prefix_facts(r: Registration, ds: Seq<DeclView>, n: nat, ver: Version)
    requires
        prefix_ok(r, ds, n, ver),
    ensures
        n <= ds.len(),
        helps_distinct(r.plan, r.help_strs@),
        plan_size(r.plan) <= cost(ds, n),
        r.plan.metrics@.len() == n,
        r.indom_src@.len() == r.plan.indoms@.len(),
        forall|k: int| 0 <= k < r.plan.indoms@.len() ==> (#[trigger] r.indom_src@[k]) < n && indom_rec_of(
            r.plan,
            ver,
            k,
            ds[r.indom_src@[k] as int],
        ),
        forall|a: int, b: int| 0 <= a < b < r.plan.indoms@.len() ==> r.plan.indoms@[a].id != r.plan.indoms@[b].id,
        forall|k: int| 0 <= k < r.plan.indoms@.len() ==> in_helps((#[trigger] r.plan.indoms@[k]).short_str, r.help_strs@)
            && in_helps(r.plan.indoms@[k].long_str, r.help_strs@),
        forall|x: int| 0 <= x < r.plan.instances@.len() ==> inst_ok(r.plan, x),
        runs_ok(r.plan),
        str_cells_ok(r.plan),
        cells_distinct(r.plan),
        plan_ok(r.plan),
        strings_ok(r.plan, r.help_strs@, ver),
        r.value_start@.len() == n,
        forall|x: int| 0 <= x < n ==> metric_rec_of(r.plan, ver, #[trigger] r.plan.metrics@[x], decl_metric(ds[x])),
        forall|x: int| 0 <= x < n ==> decl_values_ok(r.plan, ds[x], x, #[trigger] r.value_start@[x] as int),
        forall|x: int| 0 <= x < n ==> #[trigger] r.value_start@[x] + decl_count(ds[x]) == (if x + 1 < n {
            r.value_start@[x + 1] as int
        } else {
            r.plan.values@.len() as int
        }),
        n > 0 ==> r.value_start@[0] == 0,
        n == 0 ==> r.plan.values@.len() == 0,
        forall|x: int| 0 <= x < r.plan.metrics@.len() ==> in_helps((#[trigger] r.plan.metrics@[x]).short_str, r.help_strs@)
            && in_helps(r.plan.metrics@[x].long_str, r.help_strs@),
{
    lemma_prefix_core(r, ds, n, ver);
    lemma_prefix_decls(r, ds, n, ver);
}

/// Appends the metric block of `m`, with its name (in version 2) and help
/// texts in the string section.
fn metric_block(p: &mut Plan, helps: &mut Vec<usize>, m: &Metric, ver: Version)
    requires
        helps_distinct(*old(p), old(helps)@),
        plan_size(*old(p)) + 4 <= 0xffff_ffff,
    ensures
        grows(*old(p), *final(p)),
        final(p).metrics@ == old(p).metrics@.push(final(p).metrics@[old(p).metrics@.len() as int]),
        metric_rec_of(*final(p), ver, final(p).metrics@[old(p).metrics@.len() as int], m@),
        in_helps(final(p).metrics@[old(p).metrics@.len() as int].short_str, final(helps)@),
        in_helps(final(p).metrics@[old(p).metrics@.len() as int].long_str, final(helps)@),
        helps_grow(old(helps)@, final(helps)@),
        helps_distinct(*final(p), final(helps)@),
        final(p).indoms@ == old(p).indoms@,
        final(p).instances@ == old(p).instances@,
        final(p).values@ == old(p).values@,
        forall|x: int| old(p).strings@.len() <= x < final(p).strings@.len() ==> (#[trigger] final(p).strings@[x])@.len() <= 255,
        plan_size(*final(p)) <= plan_size(*old(p)) + 4,
        final(p).strings@.len() == old(p).strings@.len() + (final(helps)@.len() - old(helps)@.len()) + (if ver
            == Version::V2 { 1int } else { 0int }),
        forall|a: int|
            old(helps)@.len() <= a < final(helps)@.len() ==> (Some(#[trigger] final(helps)@[a]) == final(p).metrics@[old(
                p,
            ).metrics@.len() as int].short_str || Some(final(helps)@[a]) == final(p).metrics@[old(p).metrics@.len() as int].long_str)
                && final(helps)@[a] >= old(p).strings@.len(),
        fresh_ref(final(p).metrics@[old(p).metrics@.len() as int].name_str, old(p).strings@.len()),
{
    let _ = m.item();
    let ghost pl0 = *p;
    let name_b = text_bytes(m.name());
    let name_str = match ver {
        Version::V1 => None,
        Version::V2 => Some(fresh_str(p, text_bytes(m.name()))),
    };
    let ghost pa = *p;
    let ghost ha = helps@;
    let short_str = help_ref(p, helps, m.shorthelp());
    let ghost pb = *p;
    let ghost hb = helps@;
    let long_str = help_ref(p, helps, m.longhelp());
    let ghost pc = *p;
    p.metrics.push(
        MetricRec {
            name: name_b,
            name_str,
            item: m.item(),
            typ: m.type_code(),
            sem: m.sem().code(),
            unit: m.unit(),
            indom: m.indom(),
            short_str,
            long_str,
        },
    );
    proof {
        assert(grows(pc, *p));
        lemma_grows_trans(pl0, pa, pb);
        lemma_grows_trans(pl0, pb, pc);
        lemma_grows_trans(pl0, pc, *p);
        lemma_text_ref_grows(pb, *p, short_str, m@.shorthelp);
        lemma_text_ref_grows(pc, *p, long_str, m@.longhelp);
        if ver == Version::V2 {
            lemma_grows_trans(pa, pb, pc);
            lemma_grows_trans(pa, pc, *p);
            lemma_name_ref_grows(pa, *p, name_str, m@.name);
        }
        lemma_in_helps_grow(short_str, hb, helps@);
        assert(helps_grow(ha, helps@));
        assert forall|x: int| pl0.strings@.len() <= x < p.strings@.len() implies (#[trigger] p.strings@[x])@.len() <= 255 by {
            if x < pa.strings@.len() {
                assert(pa.strings@[x] == p.strings@[x]);
            } else if x < pb.strings@.len() {
                assert(pb.strings@[x] == p.strings@[x]);
            } else {
                assert(pc.strings@[x] == p.strings@[x]);
            }
        }
    }
}

/// Registers declaration `i`: its metric block, its instance domain if
/// not written yet, and its value blocks.
#[verifier::rlimit(100)]
fn register_one(st: &mut Registration, d: &Decl, i: usize, ver: Version, Ghost(ds): Ghost<Seq<DeclView>>) -> (r: Result<
    (),
    ExportError,
>)
    requires
        prefix_ok(*old(st), ds, i as nat, ver),
        i < ds.len(),
        d@ == ds[i as int],
        cost(ds, ds.len()) <= 0xffff_ffff,
    ensures
        r is Ok ==> prefix_ok(*final(st), ds, (i + 1) as nat, ver),
        r matches Err(e) ==> exists|id: u32| e == ExportError::IndomClash(id) && indom_clash(ds, id),
{
    let ghost r0 = *st;
    proof {
        lemma_prefix_facts(r0, ds, i as nat, ver);
        lemma_cost_mono(ds, (i + 1) as nat, ds.len());
        assert(cost(ds, (i + 1) as nat) == cost(ds, i as nat) + 7 + 4 * decl_count(ds[i as int]));
    }
    let m: &Metric = match d {
        Decl::Single(m) => m,
        Decl::Multi(im) => im.metric(),
    };
    let _ = m.item();
    let ghost h0 = st.help_strs@;
    metric_block(&mut st.plan, &mut st.help_strs, m, ver);
    let ghost pl1 = st.plan;
    let ghost h1 = st.help_strs@;
    proof {
        assert forall|k: int| 0 <= k < pl1.indoms@.len() implies in_helps((#[trigger] pl1.indoms@[k]).short_str, h1)
            && in_helps(pl1.indoms@[k].long_str, h1) by {
            assert(pl1.indoms@[k] == r0.plan.indoms@[k]);
            lemma_in_helps_grow(r0.plan.indoms@[k].short_str, h0, h1);
            lemma_in_helps_grow(r0.plan.indoms@[k].long_str, h0, h1);
        }
        assert forall|x: int| 0 <= x < pl1.instances@.len() implies inst_ok(pl1, x) by {
            assert(pl1.instances@[x] == r0.plan.instances@[x]);
            assert(inst_ok(r0.plan, x));
        }
    }
    // the instance domain and its instances, once per id
    let (first, k) = match d {
        Decl::Single(_) => (0usize, 0usize),
        Decl::Multi(im) => {
            let _ = im.metric();
            match indom_block(&mut st.plan, &mut st.help_strs, &mut st.indom_src, im, i, ver, Ghost(ds)) {
                Err(e) => {
                    return Err(e);
                },
                Ok(k) => (st.plan.indoms[k].first, k),
            }
        },
    };
    let ghost pl2 = st.plan;
    let ghost h2 = st.help_strs@;
    proof {
        if let Decl::Multi(im) = d {
            let kk = k as int;
            assert(st.indom_src@[kk] <= i);
            assert(indom_rec_of(pl2, ver, kk, ds[st.indom_src@[kk] as int]));
            assert(pl2.indoms@[kk].first == first);
        }
    }
    proof {
        assert(pl2.values@ == r0.plan.values@);
        assert forall|a: int| 0 <= a < pl2.values@.len() implies idx_ok((#[trigger] pl2.values@[a]).str_cell, pl2.strings@.len()) by {
            assert(pl2.values@[a] == r0.plan.values@[a]);
        }
        assert(cells_distinct(r0.plan));
    }
    // the value blocks
    st.value_start.push(st.plan.values.len());
    push_values(&mut st.plan, d, i, first, Ghost(k as int));
    proof {
        let pl0 = r0.plan;
        assert forall|x: int| 0 <= x < pl1.metrics@.len() implies idx_ok((#[trigger] pl1.metrics@[x]).name_str, pl1.strings@.len()) by {
            if x < pl0.metrics@.len() {
                assert(pl1.metrics@[x] == pl0.metrics@[x]);
                assert(idx_ok(pl0.metrics@[x].name_str, pl0.strings@.len()));
            }
        }
        assert forall|x: int| 0 <= x < pl0.instances@.len() implies idx_ok((#[trigger] pl0.instances@[x]).name_str, pl0.strings@.len()) by {
            assert(inst_ok(pl0, x));
        }
        assert forall|x: int| 0 <= x < pl0.metrics@.len() implies idx_ok((#[trigger] pl0.metrics@[x]).name_str, pl0.strings@.len()) by {
            let mm = pl0.metrics@[x];
            assert(idx_ok(mm.name_str, pl0.strings@.len()));
        }
        assert forall|x: int| 0 <= x < pl2.instances@.len() implies idx_ok((#[trigger] pl2.instances@[x]).name_str, pl2.strings@.len()) by {
            assert(inst_ok(pl2, x));
        }
        lemma_strings_step(pl0, h0, pl1, h1, pl2, h2, st.plan, ver);
        assert(helps_grow(h1, st.help_strs@));
        lemma_in_helps_grow(pl1.metrics@[i as int].short_str, h1, st.help_strs@);
        lemma_in_helps_grow(pl1.metrics@[i as int].long_str, h1, st.help_strs@);
        assert(helps_grow(h1, st.help_strs@));
        assert(helps_grow(h0, st.help_strs@));
        lemma_register_one_done(r0, *st, ds, i as nat, ver, pl1, pl2);
    }
    Ok(())
}

/// The limits a declaration keeps.
pub open spec fn decl_ok(d: DeclView) -> bool {
    match d {
        DeclView::Single(m) => metric_ok(m),
        DeclView::Multi(m) => instance_metric_ok(m),
    }
}

fn decl_count_of(d: &Decl) -> (r: u64)
    ensures
        r == decl_count(d@),
        r <= 0xffff_ffff,
        decl_ok(d@),
{
    match d {
        Decl::Single(m) => {
            let _ = m.item();
            1
        },
        Decl::Multi(m) => {
            let _ = m.metric();
            m.instance_count() as u64
        },
    }
}

/// Registers the declarations to export, in order: plans every block,
/// writes each distinct help text once, each instance domain once per id.
pub fn register(decls: &Vec<Decl>, ver: Version) -> (r: Result<Registration, ExportError>)
    ensures
        r matches Ok(reg) ==> registration_ok(reg, decls_view(decls@), ver),
        r matches Ok(reg) ==> strings_ok(reg.plan, reg.help_strs@, ver),
        (r == Err::<Registration, ExportError>(ExportError::TooLarge)) <==> cost(decls_view(decls@), decls@.len())
            > 0xffff_ffff,
        r matches Err(ExportError::IndomClash(id)) ==> indom_clash(decls_view(decls@), id),
        r matches Ok(reg) ==> forall|k: int| 0 <= k < reg.plan.metrics@.len() ==> valid_item(#[trigger] reg.plan.metrics@[k].item),
        r matches Ok(reg) ==> forall|k: int| 0 <= k < reg.plan.indoms@.len() ==> valid_indom(#[trigger] reg.plan.indoms@[k].id),
{
    let ghost ds = decls_view(decls@);
    let mut total: u64 = 0;
    let mut i: usize = 0;
    while i < decls.len()
        invariant
            ds == decls_view(decls@),
            i <= decls@.len(),
            total == cost(ds, i as nat),
            total <= 0xffff_ffff,
            forall|j: int| 0 <= j < i ==> decl_ok(#[trigger] ds[j]),
        decreases decls@.len() - i,
    {
        let c = decl_count_of(&decls[i]);
        assert(decls@[i as int]@ == ds[i as int]);
        total = total + 7 + 4 * c;
        if total > 0xffff_ffff {
            proof {
                lemma_cost_mono(ds, (i + 1) as nat, ds.len());
            }
            return Err(ExportError::TooLarge);
        }
        i = i + 1;
    }
    let mut st = Registration {
        plan: Plan {
            metrics: Vec::new(),
            indoms: Vec::new(),
            instances: Vec::new(),
            values: Vec::new(),
            strings: Vec::new(),
        },
        value_start: Vec::new(),
        help_strs: Vec::new(),
        indom_src: Vec::new(),
    };
    proof {
        assert(ds.take(0) =~= Seq::<DeclView>::empty());
        reveal(prefix_ok);
        reveal(strings_ok);
    }
    let mut i: usize = 0;
    while i < decls.len()
        invariant
            ds == decls_view(decls@),
            i <= decls@.len(),
            cost(ds, ds.len()) <= 0xffff_ffff,
            prefix_ok(st, ds, i as nat, ver),
            forall|j: int| 0 <= j < ds.len() ==> decl_ok(#[trigger] ds[j]),
        decreases decls@.len() - i,
    {
        match register_one(&mut st, &decls[i], i, ver, Ghost(ds)) {
            Err(e) => {
                return Err(e);
            },
            Ok(()) => {},
        }
        i = i + 1;
    }
    proof {
        lemma_prefix_facts(st, ds, ds.len(), ver);
    }
    assert(ds.take(ds.len() as int) =~= ds);
    proof {
        reveal(prefix_ok);
        assert forall|k: int| 0 <= k < st.plan.metrics@.len() implies valid_item(#[trigger] st.plan.metrics@[k].item) by {
            assert(metric_rec_of(st.plan, ver, st.plan.metrics@[k], decl_metric(ds[k])));
            assert(decl_ok(ds[k]));
        }
        assert forall|k: int| 0 <= k < st.plan.indoms@.len() implies valid_indom(#[trigger] st.plan.indoms@[k].id) by {
            let a = st.indom_src@[k] as int;
            assert(indom_rec_of(st.plan, ver, k, ds[a]));
            assert(decl_ok(ds[a]));
        }
    }
    Ok(st)
}

/// The string section of a registration holds exactly its help blocks,
/// one block per string value and, in version 2, one per metric name and
/// one per instance name; every help block is referred to, and no value's
/// string cell is a help block or a name block.
pub proof fn lemma_string_section(p: Plan, helps: Seq<usize>, ver: Version)
    requires
        strings_ok(p, helps, ver),
    ensures
        p.strings@.len() == helps.len() + n_str_values(p.values@) + names_of(p, ver),
        forall|a: int| 0 <= a < helps.len() ==> is_help_block(p, #[trigger] helps[a]),
        cells_private(p, helps),
{
    reveal(strings_ok);
}

/// Block `k` of the string section holds a help text of a metric or of an
/// instance domain.
pub open spec fn is_help_block(p: Plan, k: usize) -> bool {
    ||| exists|i: int|
        0 <= i < p.metrics@.len() && ((#[trigger] p.metrics@[i]).short_str == Some(k) || p.metrics@[i].long_str == Some(
            k,
        ))
    ||| exists|i: int|
        0 <= i < p.indoms@.len() && ((#[trigger] p.indoms@[i]).short_str == Some(k) || p.indoms@[i].long_str == Some(k))
}

/// Each help text is written once: two help blocks holding the same text
/// are one block, so the file has as many help blocks as distinct help
/// texts, and every declaration's non-empty help text has its block.
pub proof fn lemma_help_dedup(r: Registration, ds: Seq<DeclView>, ver: Version, k1: usize, k2: usize)
    requires
        registration_ok(r, ds, ver),
        is_help_block(r.plan, k1),
        is_help_block(r.plan, k2),
        r.plan.strings@[k1 as int]@ == r.plan.strings@[k2 as int]@,
    ensures
        k1 == k2,
{
    let p = r.plan;
    let h = r.help_strs@;
    assert(h.contains(k1)) by {
        if exists|i: int| 0 <= i < p.metrics@.len() && ((#[trigger] p.metrics@[i]).short_str == Some(k1) || p.metrics@[i].long_str == Some(k1)) {
            let i = choose|i: int| 0 <= i < p.metrics@.len() && ((#[trigger] p.metrics@[i]).short_str == Some(k1) || p.metrics@[i].long_str == Some(k1));
            assert(in_helps(p.metrics@[i].short_str, h) && in_helps(p.metrics@[i].long_str, h));
        } else {
            let i = choose|i: int| 0 <= i < p.indoms@.len() && ((#[trigger] p.indoms@[i]).short_str == Some(k1) || p.indoms@[i].long_str == Some(k1));
            assert(in_helps(p.indoms@[i].short_str, h) && in_helps(p.indoms@[i].long_str, h));
        }
    }
    assert(h.contains(k2)) by {
        if exists|i: int| 0 <= i < p.metrics@.len() && ((#[trigger] p.metrics@[i]).short_str == Some(k2) || p.metrics@[i].long_str == Some(k2)) {
            let i = choose|i: int| 0 <= i < p.metrics@.len() && ((#[trigger] p.metrics@[i]).short_str == Some(k2) || p.metrics@[i].long_str == Some(k2));
            assert(in_helps(p.metrics@[i].short_str, h) && in_helps(p.metrics@[i].long_str, h));
        } else {
            let i = choose|i: int| 0 <= i < p.indoms@.len() && ((#[trigger] p.indoms@[i]).short_str == Some(k2) || p.indoms@[i].long_str == Some(k2));
            assert(in_helps(p.indoms@[i].short_str, h) && in_helps(p.indoms@[i].long_str, h));
        }
    }
    let a = choose|a: int| 0 <= a < h.len() && h[a] == k1;
    let b = choose|b: int| 0 <= b < h.len() && h[b] == k2;
    if a < b {
        assert(p.strings@[h[a] as int]@ != p.strings@[h[b] as int]@);
    } else if b < a {
        assert(p.strings@[h[b] as int]@ != p.strings@[h[a] as int]@);
    }
}

} // verus!

