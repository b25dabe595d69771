//! Writing a plan out as the bytes of a file image.
use vstd::prelude::*;
use crate::bytes::{le32, le64, put_bytes, put_u32, put_u64, put_zeros};
use crate::layout::{
    counts_fit, header_bytes, idx_ok, image_body, image_of, indom_blk_bytes, indom_section, instance_blk_bytes, instance_off,
    instance_section, layout_of, metric_blk_bytes, metric_section, name_bytes, plan_layout, plan_layout_of, plan_ok,
    size_of, str_off, string_blk_bytes, string_section, toc_bytes, tocs_bytes, value_blk_bytes, value_section, zeros,
    IndomRec, InstanceRec, Layout, MetricRec, Plan, ValueRec, lemma_image_len, toc_count_of,
};
use crate::mmv::Version;

verus! {

/// Bounds that hold of the layout of a plan that keeps its limits.
pub open spec fn layout_bounds(ver: Version, l: Layout, p: Plan) -> bool {
    &&& l == plan_layout_of(ver, p)
    &&& l.size <= 0x1_0000_0000_0000
    &&& l.string_sec_off + 256 * p.strings@.len() == l.size
    &&& l.value_sec_off + 32 * p.values@.len() == l.string_sec_off
    &&& l.metric_sec_off + ver.spec_metric_len() * p.metrics@.len() == l.value_sec_off
    &&& l.instance_sec_off + ver.spec_instance_len() * p.instances@.len() == l.metric_sec_off
    &&& l.indom_sec_off + 32 * p.indoms@.len() == l.instance_sec_off
    &&& l.indom_sec_off == 40 + 16 * l.n_toc
    &&& l.n_toc <= 5
}

proof fn lemma_layout_bounds(ver: Version, p: Plan)
    requires
        plan_ok(p),
    ensures
        layout_bounds(ver, plan_layout_of(ver, p), p),
{
    let (a, b, c, d, e) = (p.indoms@.len(), p.instances@.len(), p.metrics@.len(), p.values@.len(), p.strings@.len());
    let il = ver.spec_instance_len() as int;
    let ml = ver.spec_metric_len() as int;
    assert(il * b <= 80 * 0xffff_ffff) by (nonlinear_arith)
        requires
            il <= 80,
            b <= 0xffff_ffff,
    ;
    assert(ml * c <= 104 * 0xffff_ffff) by (nonlinear_arith)
        requires
            ml <= 104,
            c <= 0xffff_ffff,
    ;
    let n_toc = crate::layout::toc_count_of(a, e);
    assert(n_toc <= 5);
    let o1 = 40 + 16 * n_toc;
    let o2 = o1 + 32 * a;
    let o3 = o2 + il * b;
    let o4 = o3 + ml * c;
    let o5 = o4 + 32 * d;
    let sz = o5 + 256 * e;
    assert(sz <= 0x1_0000_0000_0000);
    let l = plan_layout_of(ver, p);
    assert(l.indom_sec_off == o1);
    assert(l.instance_sec_off == o2);
    assert(l.metric_sec_off == o3);
    assert(l.value_sec_off == o4);
    assert(l.string_sec_off == o5);
    assert(l.size == sz);
}

/// The layout of a plan that keeps its limits stays within 48 bits.
pub proof fn lemma_layout_bounds_pub(ver: Version, p: Plan)
    requires
        plan_ok(p),
    ensures
        layout_bounds(ver, plan_layout_of(ver, p), p),
{
    lemma_layout_bounds(ver, p);
}

/// Offset of string block `k`, or 0.
fn str_off_of(l: &Layout, k: Option<usize>, n: usize) -> (r: u64)
    requires
        idx_ok(k, n as nat),
        l.string_sec_off + 256 * n <= 0x1_0000_0000_0000,
    ensures
        r == str_off(*l, k),
{
    match k {
        Some(k) => l.string_sec_off + 256 * (k as u64),
        None => 0,
    }
}

/// Appends a name: inline in version 1, as a string offset in version 2.
fn put_name(out: &mut Vec<u8>, ver: Version, name: &Vec<u8>, off: u64)
    requires
        name@.len() <= 64,
    ensures
        final(out)@ == old(out)@ + name_bytes(ver, name@, off),
{
    match ver {
        Version::V1 => {
            put_bytes(out, name.as_slice());
            put_zeros(out, 64 - name.len());
            assert(final(out)@ =~= old(out)@ + (name@ + zeros(64 - name@.len())));
        },
        Version::V2 => {
            put_u64(out, off);
        },
    }
}

fn put_metric(out: &mut Vec<u8>, ver: Version, l: &Layout, m: &MetricRec, n_strings: usize)
    requires
        m.name@.len() <= 63,
        idx_ok(m.name_str, n_strings as nat),
        idx_ok(m.short_str, n_strings as nat),
        idx_ok(m.long_str, n_strings as nat),
        l.string_sec_off + 256 * n_strings <= 0x1_0000_0000_0000,
    ensures
        final(out)@ == old(out)@ + metric_blk_bytes(ver, *l, *m),
{
    let name_off = str_off_of(l, m.name_str, n_strings);
    put_name(out, ver, &m.name, name_off);
    put_u32(out, m.item);
    put_u32(out, m.typ);
    put_u32(out, m.sem);
    put_u32(out, m.unit);
    put_u32(out, m.indom);
    put_u32(out, 0);
    put_u64(out, str_off_of(l, m.short_str, n_strings));
    put_u64(out, str_off_of(l, m.long_str, n_strings));
    assert(final(out)@ =~= old(out)@ + metric_blk_bytes(ver, *l, *m));
}

fn put_indom(out: &mut Vec<u8>, ver: Version, l: &Layout, d: &IndomRec, n_instances: usize, n_strings: usize)
    requires
        d.first <= n_instances,
        idx_ok(d.short_str, n_strings as nat),
        idx_ok(d.long_str, n_strings as nat),
        l.instance_sec_off + ver.spec_instance_len() * n_instances <= 0x1_0000_0000_0000,
        l.string_sec_off + 256 * n_strings <= 0x1_0000_0000_0000,
    ensures
        final(out)@ == old(out)@ + indom_blk_bytes(ver, *l, *d),
{
    let il = ver.instance_len();
    proof {
        assert(il * d.first <= il * n_instances) by (nonlinear_arith)
            requires
                d.first <= n_instances,
        ;
    }
    put_u32(out, d.id);
    put_u32(out, d.count);
    put_u64(out, l.instance_sec_off + il * (d.first as u64));
    put_u64(out, str_off_of(l, d.short_str, n_strings));
    put_u64(out, str_off_of(l, d.long_str, n_strings));
    assert(final(out)@ =~= old(out)@ + indom_blk_bytes(ver, *l, *d));
}

fn put_instance(out: &mut Vec<u8>, ver: Version, l: &Layout, i: &InstanceRec, n_indoms: usize, n_strings: usize)
    requires
        i.name@.len() <= 63,
        i.indom < n_indoms,
        idx_ok(i.name_str, n_strings as nat),
        l.indom_sec_off + 32 * n_indoms <= 0x1_0000_0000_0000,
        l.string_sec_off + 256 * n_strings <= 0x1_0000_0000_0000,
    ensures
        final(out)@ == old(out)@ + instance_blk_bytes(ver, *l, *i),
{
    put_u64(out, l.indom_sec_off + 32 * (i.indom as u64));
    put_u32(out, 0);
    put_u32(out, i.internal_id as u32);
    let name_off = str_off_of(l, i.name_str, n_strings);
    put_name(out, ver, &i.name, name_off);
    assert(final(out)@ =~= old(out)@ + instance_blk_bytes(ver, *l, *i));
}

fn put_value(out: &mut Vec<u8>, ver: Version, l: &Layout, v: &ValueRec, n_metrics: usize, n_instances: usize, n_strings: usize)
    requires
        v.metric < n_metrics,
        idx_ok(v.instance, n_instances as nat),
        idx_ok(v.str_cell, n_strings as nat),
        l.metric_sec_off + ver.spec_metric_len() * n_metrics <= 0x1_0000_0000_0000,
        l.instance_sec_off + ver.spec_instance_len() * n_instances <= 0x1_0000_0000_0000,
        l.string_sec_off + 256 * n_strings <= 0x1_0000_0000_0000,
    ensures
        final(out)@ == old(out)@ + value_blk_bytes(ver, *l, *v),
{
    let ml = ver.metric_len();
    let il = ver.instance_len();
    proof {
        assert(ml * v.metric <= ml * n_metrics) by (nonlinear_arith)
            requires
                v.metric < n_metrics,
        ;
    }
    put_u64(out, v.slot);
    put_u64(out, str_off_of(l, v.str_cell, n_strings));
    put_u64(out, l.metric_sec_off + ml * (v.metric as u64));
    let inst = match v.instance {
        Some(k) => {
            proof {
                assert(il * k <= il * n_instances) by (nonlinear_arith)
                    requires
                        k < n_instances,
                ;
            }
            l.instance_sec_off + il * (k as u64)
        },
        None => 0,
    };
    put_u64(out, inst);
    assert(final(out)@ =~= old(out)@ + value_blk_bytes(ver, *l, *v));
}

fn put_toc(out: &mut Vec<u8>, sec: u32, entries: u32, off: u64)
    ensures
        final(out)@ == old(out)@ + toc_bytes(sec, entries, off),
{
    put_u32(out, sec);
    put_u32(out, entries);
    put_u64(out, off);
    assert(final(out)@ =~= old(out)@ + toc_bytes(sec, entries, off));
}

fn put_indom_section(out: &mut Vec<u8>, ver: Version, l: &Layout, p: &Plan)
    requires
        plan_ok(*p),
        layout_bounds(ver, *l, *p),
    ensures
        final(out)@ == old(out)@ + indom_section(ver, *l, p.indoms@, p.indoms@.len()),
{
    let n_indoms = p.indoms.len();
    let n_instances = p.instances.len();
    let n_strings = p.strings.len();
    let mut i: usize = 0;
    while i < n_indoms
        invariant
            plan_ok(*p),
            layout_bounds(ver, *l, *p),
            n_indoms == p.indoms@.len(),
            n_instances == p.instances@.len(),
            n_strings == p.strings@.len(),
            i <= n_indoms,
            out@ == old(out)@ + indom_section(ver, *l, p.indoms@, i as nat),
        decreases n_indoms - i,
    {
        let ghost d = p.indoms@[i as int];
        put_indom(out, ver, l, &p.indoms[i], n_instances, n_strings);
        i = i + 1;
        assert(out@ =~= old(out)@ + indom_section(ver, *l, p.indoms@, i as nat));
    }
}

fn put_instance_section(out: &mut Vec<u8>, ver: Version, l: &Layout, p: &Plan)
    requires
        plan_ok(*p),
        layout_bounds(ver, *l, *p),
    ensures
        final(out)@ == old(out)@ + instance_section(ver, *l, p.instances@, p.instances@.len()),
{
    let n_indoms = p.indoms.len();
    let n_instances = p.instances.len();
    let n_strings = p.strings.len();
    let mut i: usize = 0;
    while i < n_instances
        invariant
            plan_ok(*p),
            layout_bounds(ver, *l, *p),
            n_indoms == p.indoms@.len(),
            n_instances == p.instances@.len(),
            n_strings == p.strings@.len(),
            i <= n_instances,
            out@ == old(out)@ + instance_section(ver, *l, p.instances@, i as nat),
        decreases n_instances - i,
    {
        let ghost d = p.instances@[i as int];
        put_instance(out, ver, l, &p.instances[i], n_indoms, n_strings);
        i = i + 1;
        assert(out@ =~= old(out)@ + instance_section(ver, *l, p.instances@, i as nat));
    }
}

fn put_metric_section(out: &mut Vec<u8>, ver: Version, l: &Layout, p: &Plan)
    requires
        plan_ok(*p),
        layout_bounds(ver, *l, *p),
    ensures
        final(out)@ == old(out)@ + metric_section(ver, *l, p.metrics@, p.metrics@.len()),
{
    let n_metrics = p.metrics.len();
    let n_strings = p.strings.len();
    let mut i: usize = 0;
    while i < n_metrics
        invariant
            plan_ok(*p),
            layout_bounds(ver, *l, *p),
            n_metrics == p.metrics@.len(),
            n_strings == p.strings@.len(),
            i <= n_metrics,
            out@ == old(out)@ + metric_section(ver, *l, p.metrics@, i as nat),
        decreases n_metrics - i,
    {
        let ghost d = p.metrics@[i as int];
        put_metric(out, ver, l, &p.metrics[i], n_strings);
        i = i + 1;
        assert(out@ =~= old(out)@ + metric_section(ver, *l, p.metrics@, i as nat));
    }
}

fn put_value_section(out: &mut Vec<u8>, ver: Version, l: &Layout, p: &Plan)
    requires
        plan_ok(*p),
        layout_bounds(ver, *l, *p),
    ensures
        final(out)@ == old(out)@ + value_section(ver, *l, p.values@, p.values@.len()),
{
    let n_metrics = p.metrics.len();
    let n_instances = p.instances.len();
    let n_values = p.values.len();
    let n_strings = p.strings.len();
    let mut i: usize = 0;
    while i < n_values
        invariant
            plan_ok(*p),
            layout_bounds(ver, *l, *p),
            n_metrics == p.metrics@.len(),
            n_instances == p.instances@.len(),
            n_values == p.values@.len(),
            n_strings == p.strings@.len(),
            i <= n_values,
            out@ == old(out)@ + value_section(ver, *l, p.values@, i as nat),
        decreases n_values - i,
    {
        let ghost d = p.values@[i as int];
        put_value(out, ver, l, &p.values[i], n_metrics, n_instances, n_strings);
        i = i + 1;
        assert(out@ =~= old(out)@ + value_section(ver, *l, p.values@, i as nat));
    }
}

fn put_string_section(out: &mut Vec<u8>, p: &Plan)
    requires
        plan_ok(*p),
    ensures
        final(out)@ == old(out)@ + string_section(p.strings@, p.strings@.len()),
{
    let n_strings = p.strings.len();
    let mut i: usize = 0;
    while i < n_strings
        invariant
            plan_ok(*p),
            n_strings == p.strings@.len(),
            i <= n_strings,
            out@ == old(out)@ + string_section(p.strings@, i as nat),
        decreases n_strings - i,
    {
        let ghost d = p.strings@[i as int];
        let s = &p.strings[i];
        put_bytes(out, s.as_slice());
        put_zeros(out, 256 - s.len());
        i = i + 1;
        assert(out@ =~= old(out)@ + string_section(p.strings@, i as nat));
    }
}

fn put_header(out: &mut Vec<u8>, ver: Version, gen: i64, n_toc: u32, flags: u32, pid: i32, cluster_id: u32)
    ensures
        final(out)@ == old(out)@ + header_bytes(ver, gen, 0, n_toc, flags, pid, cluster_id),
{
    out.push(77);
    out.push(77);
    out.push(86);
    out.push(0);
    put_u32(out, ver.code());
    put_u64(out, gen as u64);
    put_u64(out, 0);
    put_u32(out, n_toc);
    put_u32(out, flags);
    put_u32(out, pid as u32);
    put_u32(out, cluster_id);
    assert(final(out)@ =~= old(out)@ + header_bytes(ver, gen, 0, n_toc, flags, pid, cluster_id));
}

fn put_tocs(out: &mut Vec<u8>, l: &Layout, n_indoms: u32, n_instances: u32, n_metrics: u32, n_values: u32, n_strings: u32)
    ensures
        final(out)@ == old(out)@ + tocs_bytes(*l, n_indoms, n_instances, n_metrics, n_values, n_strings),
{
    if n_indoms > 0 {
        put_toc(out, 1, n_indoms, l.indom_sec_off);
        put_toc(out, 2, n_instances, l.instance_sec_off);
    }
    put_toc(out, 3, n_metrics, l.metric_sec_off);
    put_toc(out, 4, n_values, l.value_sec_off);
    if n_strings > 0 {
        put_toc(out, 5, n_strings, l.string_sec_off);
    }
    assert(final(out)@ =~= old(out)@ + tocs_bytes(*l, n_indoms, n_instances, n_metrics, n_values, n_strings));
}

fn put_body(out: &mut Vec<u8>, ver: Version, l: &Layout, p: &Plan)
    requires
        plan_ok(*p),
        layout_bounds(ver, *l, *p),
    ensures
        final(out)@ == old(out)@ + image_body(ver, *p),
{
    put_tocs(
        out,
        l,
        p.indoms.len() as u32,
        p.instances.len() as u32,
        p.metrics.len() as u32,
        p.values.len() as u32,
        p.strings.len() as u32,
    );
    put_indom_section(out, ver, l, p);
    put_instance_section(out, ver, l, p);
    put_metric_section(out, ver, l, p);
    put_value_section(out, ver, l, p);
    put_string_section(out, p);
    assert(final(out)@ =~= old(out)@ + image_body(ver, *p));
}

/// The image of a plan, with the second generation number 0: nothing reads
/// it as published until `publish` runs.
pub fn emit(ver: Version, p: &Plan, flags: u32, pid: i32, cluster_id: u32, gen: i64) -> (r: Vec<u8>)
    requires
        plan_ok(*p),
    ensures
        r@ == image_of(ver, *p, flags, pid, cluster_id, gen),
        r@.len() == size_of(
            ver,
            p.indoms@.len(),
            p.instances@.len(),
            p.metrics@.len(),
            p.values@.len(),
            p.strings@.len(),
        ),
{
    let l = plan_layout(
        ver,
        p.indoms.len() as u64,
        p.instances.len() as u64,
        p.metrics.len() as u64,
        p.values.len() as u64,
        p.strings.len() as u64,
    );
    proof {
        lemma_layout_bounds(ver, *p);
    }
    let mut out: Vec<u8> = Vec::new();
    put_header(&mut out, ver, gen, l.n_toc as u32, flags, pid, cluster_id);
    let ghost h = out@;
    put_body(&mut out, ver, &l, p);
    assert(out@ =~= h + image_body(ver, *p));
    proof {
        lemma_image_len(ver, *p, flags, pid, cluster_id, gen);
    }
    out
}

proof fn lemma_subrange_mid(a: Seq<u8>, b: Seq<u8>, c: Seq<u8>, i: int, n: int)
    requires
        0 <= i,
        0 <= n,
        i + n <= b.len(),
    ensures
        (a + b + c).subrange(a.len() + i, a.len() + i + n) == b.subrange(i, i + n),
{
    assert((a + b + c).subrange(a.len() + i, a.len() + i + n) =~= b.subrange(i, i + n));
}

proof fn lemma_assoc7(h: Seq<u8>, t: Seq<u8>, s1: Seq<u8>, s2: Seq<u8>, s3: Seq<u8>, s4: Seq<u8>, s5: Seq<u8>)
    ensures
        h + (t + s1 + s2 + s3 + s4 + s5) == (h + t + s1 + s2 + s3) + s4 + s5,
{
    assert(h + (t + s1 + s2 + s3 + s4 + s5) =~= (h + t + s1 + s2 + s3) + s4 + s5);
}

/// The bytes before the value section of an image fill exactly the
/// layout's offset of that section.
#[verifier::rlimit(40)]
proof fn lemma_before_values_len(ver: Version, p: Plan, flags: u32, pid: i32, cluster_id: u32, gen: i64)
    requires
        plan_ok(p),
    ensures
        ({
            let l = plan_layout_of(ver, p);
            header_bytes(ver, gen, 0, l.n_toc as u32, flags, pid, cluster_id).len() + tocs_bytes(
                l,
                p.indoms@.len() as u32,
                p.instances@.len() as u32,
                p.metrics@.len() as u32,
                p.values@.len() as u32,
                p.strings@.len() as u32,
            ).len() + indom_section(ver, l, p.indoms@, p.indoms@.len()).len() + instance_section(
                ver,
                l,
                p.instances@,
                p.instances@.len(),
            ).len() + metric_section(ver, l, p.metrics@, p.metrics@.len()).len() == l.value_sec_off
        }),
{
    let l = plan_layout_of(ver, p);
    lemma_layout_bounds(ver, p);
    assert forall|j: int| 0 <= j < p.metrics@.len() implies (#[trigger] p.metrics@[j]).name@.len() <= 64 by {
        assert(p.metrics@[j].name@.len() <= 63);
    }
    assert forall|j: int| 0 <= j < p.instances@.len() implies (#[trigger] p.instances@[j]).name@.len() <= 64 by {
        assert(p.instances@[j].name@.len() <= 63);
    }
    crate::layout::lemma_metric_section_len(ver, l, p.metrics@, p.metrics@.len());
    crate::layout::lemma_indom_section_len(ver, l, p.indoms@, p.indoms@.len());
    crate::layout::lemma_instance_section_len(ver, l, p.instances@, p.instances@.len());
    let (il, ml, nb, nc) = (ver.spec_instance_len() as int, ver.spec_metric_len() as int, p.instances@.len() as int, p.metrics@.len() as int);
    assert(il * nb == nb * il) by (nonlinear_arith);
    assert(ml * nc == nc * ml) by (nonlinear_arith);
    let t = tocs_bytes(
        l,
        p.indoms@.len() as u32,
        p.instances@.len() as u32,
        p.metrics@.len() as u32,
        p.values@.len() as u32,
        p.strings@.len() as u32,
    );
    assert(t.len() == 16 * toc_count_of(p.indoms@.len(), p.strings@.len()));
    assert(l.n_toc == toc_count_of(p.indoms@.len(), p.strings@.len()));
    assert(header_bytes(ver, gen, 0, l.n_toc as u32, flags, pid, cluster_id).len() == 40);
}

/// In the image of a plan, the eight bytes at the cell of a value block
/// are its slot, little-endian.
pub proof fn lemma_image_value_cell(ver: Version, p: Plan, flags: u32, pid: i32, cluster_id: u32, gen: i64, k: int)
    requires
        plan_ok(p),
        0 <= k < p.values@.len(),
    ensures
        ({
            let off = plan_layout_of(ver, p).value_sec_off + 32 * k;
            image_of(ver, p, flags, pid, cluster_id, gen).subrange(off, off + 8) == le64(p.values@[k].slot)
        }),
{
    let l = plan_layout_of(ver, p);
    let h = header_bytes(ver, gen, 0, l.n_toc as u32, flags, pid, cluster_id);
    let t = tocs_bytes(
        l,
        p.indoms@.len() as u32,
        p.instances@.len() as u32,
        p.metrics@.len() as u32,
        p.values@.len() as u32,
        p.strings@.len() as u32,
    );
    let s1 = indom_section(ver, l, p.indoms@, p.indoms@.len());
    let s2 = instance_section(ver, l, p.instances@, p.instances@.len());
    let s3 = metric_section(ver, l, p.metrics@, p.metrics@.len());
    let s4 = value_section(ver, l, p.values@, p.values@.len());
    let s5 = string_section(p.strings@, p.strings@.len());
    lemma_assoc7(h, t, s1, s2, s3, s4, s5);
    lemma_before_values_len(ver, p, flags, pid, cluster_id, gen);
    crate::layout::lemma_value_section_at(ver, l, p.values@, p.values@.len(), k);
    let pre = h + t + s1 + s2 + s3;
    assert(pre.len() == l.value_sec_off);
    lemma_subrange_mid(pre, s4, s5, 32 * k, 8);
}

} // verus!
