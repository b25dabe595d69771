//! The layout of a file: a plan of every block, the offsets of the five
//! sections, and the bytes each block and the whole image are made of.
use vstd::prelude::*;
use crate::bytes::{le32, le64, put_bytes, put_u32, put_u64, put_zeros};
use crate::mmv::{Version, HDR_LEN, INDOM_BLOCK_LEN, STRING_BLOCK_LEN, TOC_BLOCK_LEN, VALUE_BLOCK_LEN};

verus! {

/// A metric block to write; strings are named by their index in the string
/// section.
pub struct MetricRec {
    pub name: Vec<u8>,
    pub name_str: Option<usize>,
    pub item: u32,
    pub typ: u32,
    pub sem: u32,
    pub unit: u32,
    pub indom: u32,
    pub short_str: Option<usize>,
    pub long_str: Option<usize>,
}

/// An instance domain block to write; `first` indexes its first instance.
#[derive(PartialEq, Eq, Structural, Clone, Copy, Debug)]
pub struct IndomRec {
    pub id: u32,
    pub count: u32,
    pub first: usize,
    pub short_str: Option<usize>,
    pub long_str: Option<usize>,
}

/// An instance block to write; `indom` indexes its domain.
pub struct InstanceRec {
    pub indom: usize,
    pub internal_id: i32,
    pub name: Vec<u8>,
    pub name_str: Option<usize>,
}

/// A value block to write: the slot, the string cell of a string value,
/// the metric and, for an instance metric, the instance.
#[derive(PartialEq, Eq, Structural, Clone, Copy, Debug)]
pub struct ValueRec {
    pub slot: u64,
    pub str_cell: Option<usize>,
    pub metric: usize,
    pub instance: Option<usize>,
}

/// Every block of a file, in section order.
pub struct Plan {
    pub metrics: Vec<MetricRec>,
    pub indoms: Vec<IndomRec>,
    pub instances: Vec<InstanceRec>,
    pub values: Vec<ValueRec>,
    pub strings: Vec<Vec<u8>>,
}

/// The section offsets and counts of a file.
#[derive(PartialEq, Eq, Structural, Clone, Copy, Debug)]
pub struct Layout {
    pub n_toc: u64,
    pub indom_sec_off: u64,
    pub instance_sec_off: u64,
    pub metric_sec_off: u64,
    pub value_sec_off: u64,
    pub string_sec_off: u64,
    pub size: u64,
}

/// Number of tables of contents: metrics and values always, strings when
/// there are any, instance domains and instances when there are any.
pub open spec fn toc_count_of(n_indoms: nat, n_strings: nat) -> nat {
    2 + (if n_strings > 0 { 1nat } else { 0nat }) + (if n_indoms > 0 { 2nat } else { 0nat })
}

/// The layout of a file of version `ver` with these block counts.
pub open spec fn layout_of(ver: Version, n_indoms: nat, n_instances: nat, n_metrics: nat, n_values: nat, n_strings: nat) -> Layout {
    let n_toc = toc_count_of(n_indoms, n_strings);
    let indom_sec_off = 40 + 16 * n_toc;
    let instance_sec_off = indom_sec_off + 32 * n_indoms;
    let metric_sec_off = instance_sec_off + ver.spec_instance_len() * n_instances;
    let value_sec_off = metric_sec_off + ver.spec_metric_len() * n_metrics;
    let string_sec_off = value_sec_off + 32 * n_values;
    Layout {
        n_toc: n_toc as u64,
        indom_sec_off: indom_sec_off as u64,
        instance_sec_off: instance_sec_off as u64,
        metric_sec_off: metric_sec_off as u64,
        value_sec_off: value_sec_off as u64,
        string_sec_off: string_sec_off as u64,
        size: (string_sec_off + 256 * n_strings) as u64,
    }
}

/// The size of the file, unbounded.
pub open spec fn size_of(ver: Version, n_indoms: nat, n_instances: nat, n_metrics: nat, n_values: nat, n_strings: nat) -> int {
    40 + 16 * toc_count_of(n_indoms, n_strings) + 32 * n_indoms + ver.spec_instance_len() * n_instances
        + ver.spec_metric_len() * n_metrics + 32 * n_values + 256 * n_strings
}

/// A count bound under which every offset of a file fits.
pub open spec fn counts_fit(n_indoms: nat, n_instances: nat, n_metrics: nat, n_values: nat, n_strings: nat) -> bool {
    &&& n_indoms <= 0xffff_ffff
    &&& n_instances <= 0xffff_ffff
    &&& n_metrics <= 0xffff_ffff
    &&& n_values <= 0xffff_ffff
    &&& n_strings <= 0xffff_ffff
}

/// Computes the layout for these counts.
pub fn plan_layout(ver: Version, n_indoms: u64, n_instances: u64, n_metrics: u64, n_values: u64, n_strings: u64) -> (r: Layout)
    requires
        counts_fit(n_indoms as nat, n_instances as nat, n_metrics as nat, n_values as nat, n_strings as nat),
    ensures
        r == layout_of(ver, n_indoms as nat, n_instances as nat, n_metrics as nat, n_values as nat, n_strings as nat),
        r.size == size_of(ver, n_indoms as nat, n_instances as nat, n_metrics as nat, n_values as nat, n_strings as nat),
{
    let mut n_toc: u64 = 2;
    if n_strings > 0 {
        n_toc = n_toc + 1;
    }
    if n_indoms > 0 {
        n_toc = n_toc + 2;
    }
    let indom_sec_off = HDR_LEN + TOC_BLOCK_LEN * n_toc;
    let instance_sec_off = indom_sec_off + INDOM_BLOCK_LEN * n_indoms;
    let il = ver.instance_len();
    let ml = ver.metric_len();
    assert(il * n_instances <= 80 * 0xffff_ffff) by (nonlinear_arith)
        requires
            il <= 80,
            n_instances <= 0xffff_ffff,
    ;
    assert(ml * n_metrics <= 104 * 0xffff_ffff) by (nonlinear_arith)
        requires
            ml <= 104,
            n_metrics <= 0xffff_ffff,
    ;
    let metric_sec_off = instance_sec_off + il * n_instances;
    let value_sec_off = metric_sec_off + ml * n_metrics;
    let string_sec_off = value_sec_off + VALUE_BLOCK_LEN * n_values;
    let size = string_sec_off + STRING_BLOCK_LEN * n_strings;
    Layout { n_toc, indom_sec_off, instance_sec_off, metric_sec_off, value_sec_off, string_sec_off, size }
}

/// `n` zero bytes.
pub open spec fn zeros(n: int) -> Seq<u8> {
    Seq::new(n as nat, |i: int| 0u8)
}

/// The offset of string block `k`, or 0 for none.
pub open spec fn str_off(l: Layout, k: Option<usize>) -> u64 {
    match k {
        Some(k) => (l.string_sec_off + 256 * k) as u64,
        None => 0,
    }
}

/// The header, with the second generation number `gen2`.
pub open spec fn header_bytes(ver: Version, gen: i64, gen2: i64, n_toc: u32, flags: u32, pid: i32, cluster_id: u32) -> Seq<u8> {
    seq![77u8, 77u8, 86u8, 0u8] + le32(ver.spec_code()) + le64(gen as u64) + le64(gen2 as u64) + le32(n_toc) + le32(flags)
        + le32(pid as u32) + le32(cluster_id)
}

/// A table of contents.
pub open spec fn toc_bytes(sec: u32, entries: u32, off: u64) -> Seq<u8> {
    le32(sec) + le32(entries) + le64(off)
}

/// A name held in a block: inline and NUL-padded to 64 bytes in version
/// 1, as the offset of its string block in version 2.
pub open spec fn name_bytes(ver: Version, name: Seq<u8>, off: u64) -> Seq<u8> {
    match ver {
        Version::V1 => name + zeros(64 - name.len()),
        Version::V2 => le64(off),
    }
}

/// The bytes of metric block `m`.
pub open spec fn metric_blk_bytes(ver: Version, l: Layout, m: MetricRec) -> Seq<u8> {
    name_bytes(ver, m.name@, str_off(l, m.name_str)) + le32(m.item) + le32(m.typ) + le32(m.sem) + le32(m.unit) + le32(
        m.indom,
    ) + le32(0) + le64(str_off(l, m.short_str)) + le64(str_off(l, m.long_str))
}

/// The bytes of instance domain block `d`.
pub open spec fn indom_blk_bytes(ver: Version, l: Layout, d: IndomRec) -> Seq<u8> {
    le32(d.id) + le32(d.count) + le64((l.instance_sec_off + ver.spec_instance_len() * d.first) as u64) + le64(
        str_off(l, d.short_str),
    ) + le64(str_off(l, d.long_str))
}

/// The bytes of instance block `i`.
pub open spec fn instance_blk_bytes(ver: Version, l: Layout, i: InstanceRec) -> Seq<u8> {
    le64((l.indom_sec_off + 32 * i.indom) as u64) + le32(0) + le32(i.internal_id as u32) + name_bytes(
        ver,
        i.name@,
        str_off(l, i.name_str),
    )
}

/// The offset of instance block `k`, or 0 for none.
pub open spec fn instance_off(ver: Version, l: Layout, k: Option<usize>) -> u64 {
    match k {
        Some(k) => (l.instance_sec_off + ver.spec_instance_len() * k) as u64,
        None => 0,
    }
}

/// The bytes of value block `v`.
pub open spec fn value_blk_bytes(ver: Version, l: Layout, v: ValueRec) -> Seq<u8> {
    le64(v.slot) + le64(str_off(l, v.str_cell)) + le64((l.metric_sec_off + ver.spec_metric_len() * v.metric) as u64) + le64(
        instance_off(ver, l, v.instance),
    )
}

/// The bytes of a string block.
pub open spec fn string_blk_bytes(s: Seq<u8>) -> Seq<u8> {
    s + zeros(256 - s.len())
}

/// The bytes of the first `n` metric blocks.
pub open spec fn metric_section(ver: Version, l: Layout, ms: Seq<MetricRec>, n: nat) -> Seq<u8>
    decreases n,
{
    if n == 0 || n > ms.len() {
        Seq::empty()
    } else {
        metric_section(ver, l, ms, (n - 1) as nat) + metric_blk_bytes(ver, l, ms[n - 1])
    }
}

/// The bytes of the first `n` instance domain blocks.
pub open spec fn indom_section(ver: Version, l: Layout, ds: Seq<IndomRec>, n: nat) -> Seq<u8>
    decreases n,
{
    if n == 0 || n > ds.len() {
        Seq::empty()
    } else {
        indom_section(ver, l, ds, (n - 1) as nat) + indom_blk_bytes(ver, l, ds[n - 1])
    }
}

/// The bytes of the first `n` instance blocks.
pub open spec fn instance_section(ver: Version, l: Layout, is: Seq<InstanceRec>, n: nat) -> Seq<u8>
    decreases n,
{
    if n == 0 || n > is.len() {
        Seq::empty()
    } else {
        instance_section(ver, l, is, (n - 1) as nat) + instance_blk_bytes(ver, l, is[n - 1])
    }
}

/// The bytes of the first `n` value blocks.
pub open spec fn value_section(ver: Version, l: Layout, vs: Seq<ValueRec>, n: nat) -> Seq<u8>
    decreases n,
{
    if n == 0 || n > vs.len() {
        Seq::empty()
    } else {
        value_section(ver, l, vs, (n - 1) as nat) + value_blk_bytes(ver, l, vs[n - 1])
    }
}

/// The bytes of the first `n` string blocks.
pub open spec fn string_section(ss: Seq<Vec<u8>>, n: nat) -> Seq<u8>
    decreases n,
{
    if n == 0 || n > ss.len() {
        Seq::empty()
    } else {
        string_section(ss, (n - 1) as nat) + string_blk_bytes(ss[n - 1]@)
    }
}

/// The tables of contents of a file with this layout.
pub open spec fn tocs_bytes(l: Layout, n_indoms: u32, n_instances: u32, n_metrics: u32, n_values: u32, n_strings: u32) -> Seq<u8> {
    (if n_indoms > 0 {
        toc_bytes(1, n_indoms, l.indom_sec_off) + toc_bytes(2, n_instances, l.instance_sec_off)
    } else {
        Seq::empty()
    }) + toc_bytes(3, n_metrics, l.metric_sec_off) + toc_bytes(4, n_values, l.value_sec_off) + (if n_strings > 0 {
        toc_bytes(5, n_strings, l.string_sec_off)
    } else {
        Seq::empty()
    })
}

/// The limits a plan keeps: the counts fit, every index points at a block
/// that exists, every name and string fits its room.
pub open spec fn plan_ok(p: Plan) -> bool {
    &&& counts_fit(
        p.indoms@.len(),
        p.instances@.len(),
        p.metrics@.len(),
        p.values@.len(),
        p.strings@.len(),
    )
    &&& forall|k: int| 0 <= k < p.strings@.len() ==> (#[trigger] p.strings@[k])@.len() <= 255
    &&& forall|k: int|
        0 <= k < p.metrics@.len() ==> {
            let m = #[trigger] p.metrics@[k];
            &&& m.name@.len() <= 63
            &&& idx_ok(m.name_str, p.strings@.len())
            &&& idx_ok(m.short_str, p.strings@.len())
            &&& idx_ok(m.long_str, p.strings@.len())
        }
    &&& forall|k: int|
        0 <= k < p.indoms@.len() ==> {
            let d = #[trigger] p.indoms@[k];
            &&& d.first <= p.instances@.len()
            &&& idx_ok(d.short_str, p.strings@.len())
            &&& idx_ok(d.long_str, p.strings@.len())
        }
    &&& forall|k: int|
        0 <= k < p.instances@.len() ==> {
            let i = #[trigger] p.instances@[k];
            &&& i.name@.len() <= 63
            &&& i.indom < p.indoms@.len()
            &&& idx_ok(i.name_str, p.strings@.len())
        }
    &&& forall|k: int|
        0 <= k < p.values@.len() ==> {
            let v = #[trigger] p.values@[k];
            &&& v.metric < p.metrics@.len()
            &&& idx_ok(v.instance, p.instances@.len())
            &&& idx_ok(v.str_cell, p.strings@.len())
        }
}

/// An optional index below `n`.
pub open spec fn idx_ok(k: Option<usize>, n: nat) -> bool {
    match k {
        Some(k) => k < n,
        None => true,
    }
}

/// The layout of a plan.
pub open spec fn plan_layout_of(ver: Version, p: Plan) -> Layout {
    layout_of(ver, p.indoms@.len(), p.instances@.len(), p.metrics@.len(), p.values@.len(), p.strings@.len())
}

/// What follows the header in the image of a plan: the tables of contents,
/// then the five sections.
pub open spec fn image_body(ver: Version, p: Plan) -> Seq<u8> {
    let l = plan_layout_of(ver, p);
    tocs_bytes(
        l,
        p.indoms@.len() as u32,
        p.instances@.len() as u32,
        p.metrics@.len() as u32,
        p.values@.len() as u32,
        p.strings@.len() as u32,
    ) + indom_section(ver, l, p.indoms@, p.indoms@.len()) + instance_section(ver, l, p.instances@, p.instances@.len())
        + metric_section(ver, l, p.metrics@, p.metrics@.len()) + value_section(ver, l, p.values@, p.values@.len())
        + string_section(p.strings@, p.strings@.len())
}

/// The image of a plan: header with the second generation number 0, the
/// tables of contents, then the five sections.
pub open spec fn image_of(ver: Version, p: Plan, flags: u32, pid: i32, cluster_id: u32, gen: i64) -> Seq<u8> {
    header_bytes(ver, gen, 0, plan_layout_of(ver, p).n_toc as u32, flags, pid, cluster_id) + image_body(ver, p)
}

pub(crate) proof fn lemma_metric_section_len(ver: Version, l: Layout, ms: Seq<MetricRec>, n: nat)
    requires
        n <= ms.len(),
        forall|k: int| 0 <= k < ms.len() ==> (#[trigger] ms[k]).name@.len() <= 64,
    ensures
        metric_section(ver, l, ms, n).len() == n * ver.spec_metric_len(),
    decreases n,
{
    if n == 0 {
        assert(n * ver.spec_metric_len() == 0);
    } else {
        lemma_metric_section_len(ver, l, ms, (n - 1) as nat);
        let m = ms[n - 1];
        assert(metric_blk_bytes(ver, l, m).len() == ver.spec_metric_len());
        assert((n - 1) * ver.spec_metric_len() + ver.spec_metric_len() == n * ver.spec_metric_len()) by (nonlinear_arith);
    }
}

pub(crate) proof fn lemma_indom_section_len(ver: Version, l: Layout, ds: Seq<IndomRec>, n: nat)
    requires
        n <= ds.len(),
    ensures
        indom_section(ver, l, ds, n).len() == n * 32,
    decreases n,
{
    if n > 0 {
        lemma_indom_section_len(ver, l, ds, (n - 1) as nat);
    }
}

pub(crate) proof fn lemma_instance_section_len(ver: Version, l: Layout, is: Seq<InstanceRec>, n: nat)
    requires
        n <= is.len(),
        forall|k: int| 0 <= k < is.len() ==> (#[trigger] is[k]).name@.len() <= 64,
    ensures
        instance_section(ver, l, is, n).len() == n * ver.spec_instance_len(),
    decreases n,
{
    if n == 0 {
        assert(n * ver.spec_instance_len() == 0);
    } else {
        lemma_instance_section_len(ver, l, is, (n - 1) as nat);
        let i = is[n - 1];
        assert(instance_blk_bytes(ver, l, i).len() == ver.spec_instance_len());
        assert((n - 1) * ver.spec_instance_len() + ver.spec_instance_len() == n * ver.spec_instance_len()) by (nonlinear_arith);
    }
}

pub(crate) proof fn lemma_value_section_len(ver: Version, l: Layout, vs: Seq<ValueRec>, n: nat)
    requires
        n <= vs.len(),
    ensures
        value_section(ver, l, vs, n).len() == n * 32,
    decreases n,
{
    if n > 0 {
        lemma_value_section_len(ver, l, vs, (n - 1) as nat);
    }
}

pub(crate) proof fn lemma_string_section_len(ss: Seq<Vec<u8>>, n: nat)
    requires
        n <= ss.len(),
        forall|k: int| 0 <= k < ss.len() ==> (#[trigger] ss[k])@.len() <= 256,
    ensures
        string_section(ss, n).len() == n * 256,
    decreases n,
{
    if n > 0 {
        lemma_string_section_len(ss, (n - 1) as nat);
        assert(ss[n - 1]@.len() <= 256);
    }
}

/// The image of a plan is exactly as long as its layout says.
#[verifier::rlimit(40)]
pub proof fn lemma_image_len(ver: Version, p: Plan, flags: u32, pid: i32, cluster_id: u32, gen: i64)
    requires
        plan_ok(p),
    ensures
        image_of(ver, p, flags, pid, cluster_id, gen).len() == size_of(
            ver,
            p.indoms@.len(),
            p.instances@.len(),
            p.metrics@.len(),
            p.values@.len(),
            p.strings@.len(),
        ),
{
    let l = plan_layout_of(ver, p);
    assert forall|k: int| 0 <= k < p.metrics@.len() implies (#[trigger] p.metrics@[k]).name@.len() <= 64 by {
        assert(p.metrics@[k].name@.len() <= 63);
    }
    assert forall|k: int| 0 <= k < p.instances@.len() implies (#[trigger] p.instances@[k]).name@.len() <= 64 by {
        assert(p.instances@[k].name@.len() <= 63);
    }
    assert forall|k: int| 0 <= k < p.strings@.len() implies (#[trigger] p.strings@[k])@.len() <= 256 by {
        assert(p.strings@[k]@.len() <= 255);
    }
    lemma_metric_section_len(ver, l, p.metrics@, p.metrics@.len());
    lemma_indom_section_len(ver, l, p.indoms@, p.indoms@.len());
    lemma_instance_section_len(ver, l, p.instances@, p.instances@.len());
    lemma_value_section_len(ver, l, p.values@, p.values@.len());
    lemma_string_section_len(p.strings@, p.strings@.len());
    let h = header_bytes(ver, gen, 0, l.n_toc as u32, flags, pid, cluster_id);
    let t = tocs_bytes(
        l,
        p.indoms@.len() as u32,
        p.instances@.len() as u32,
        p.metrics@.len() as u32,
        p.values@.len() as u32,
        p.strings@.len() as u32,
    );
    assert(h.len() == 40);
    assert(t.len() == 16 * toc_count_of(p.indoms@.len(), p.strings@.len()));
    let s1 = indom_section(ver, l, p.indoms@, p.indoms@.len());
    let s2 = instance_section(ver, l, p.instances@, p.instances@.len());
    let s3 = metric_section(ver, l, p.metrics@, p.metrics@.len());
    let s4 = value_section(ver, l, p.values@, p.values@.len());
    let s5 = string_section(p.strings@, p.strings@.len());
    assert(image_body(ver, p) == t + s1 + s2 + s3 + s4 + s5);
    let (il, ml, nb, nc) = (ver.spec_instance_len() as int, ver.spec_metric_len() as int, p.instances@.len() as int, p.metrics@.len() as int);
    assert(il * nb == nb * il) by (nonlinear_arith);
    assert(ml * nc == nc * ml) by (nonlinear_arith);
}

pub(crate) proof fn lemma_value_section_at(ver: Version, l: Layout, vs: Seq<ValueRec>, n: nat, k: int)
    requires
        0 <= k < n <= vs.len(),
    ensures
        value_section(ver, l, vs, n).len() == 32 * n,
        value_section(ver, l, vs, n).subrange(32 * k, 32 * k + 8) == le64(vs[k].slot),
    decreases n,
{
    lemma_value_section_len(ver, l, vs, (n - 1) as nat);
    lemma_value_section_len(ver, l, vs, n);
    let pre = value_section(ver, l, vs, (n - 1) as nat);
    let blk = value_blk_bytes(ver, l, vs[n - 1]);
    assert(value_section(ver, l, vs, n) == pre + blk);
    if k < n - 1 {
        lemma_value_section_at(ver, l, vs, (n - 1) as nat, k);
        assert((pre + blk).subrange(32 * k, 32 * k + 8) =~= pre.subrange(32 * k, 32 * k + 8));
    } else {
        assert((pre + blk).subrange(32 * k, 32 * k + 8) =~= blk.subrange(0, 8));
        assert(blk.subrange(0, 8) =~= le64(vs[k].slot));
    }
}

} // verus!
