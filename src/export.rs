//! Exporting declarations: the file image, the cell of each value, and the
//! publication that makes the image readable.
use vstd::prelude::*;
use crate::bytes::{get32, get64, le32, le64};
use crate::emit::emit;
use crate::ident::valid_cluster_id;
use crate::layout::{
    header_bytes, idx_ok, image_body, image_of, layout_of, plan_layout, plan_layout_of, plan_ok, Layout, Plan, ValueRec,
};
use crate::mmv::{header_of, Header, MMVDumpError, Version};
use crate::writer::{strings_ok, cells_distinct, cost, indom_clash, decls_view, in_helps, helps_distinct, register, registration_ok, Decl, ExportError, Registration};

verus! {

/// Flag: metric names are not prefixed with the file name.
pub const NOPREFIX: u32 = 1;
/// Flag: the reader checks that the writing process is alive.
pub const PROCESS: u32 = 2;
/// Flag: "no value" sentinels are allowed.
pub const SENTINEL: u32 = 4;

/// The bytes of a value's cell: its 8-byte slot, or its 256-byte string
/// block.
pub open spec fn cell_loc(l: Layout, v: ValueRec, idx: int) -> (u64, u64) {
    match v.str_cell {
        Some(k) => ((l.string_sec_off + 256 * k) as u64, 256),
        None => ((l.value_sec_off + 32 * idx) as u64, 8),
    }
}

/// An exported file: the registration it was laid out from, its image
/// (not yet published) and, for each value block in order, its cell as
/// offset and length.
pub struct Export {
    pub registration: Registration,
    pub image: Vec<u8>,
    pub cells: Vec<(u64, u64)>,
}

/// A cluster id cut to its 12 bits.
pub fn mask_cluster_id(cluster_id: u32) -> (r: u32)
    ensures
        r == cluster_id & 0xfff,
        valid_cluster_id(r),
{
    let r = cluster_id & 0xfff;
    assert((cluster_id & 0xfff) >> 12 == 0) by (bit_vector);
    r
}

/// Lays out and writes the image of the declarations, with the given
/// header fields; the cluster id is cut to 12 bits. The second generation
/// number is 0 until `publish`.
pub fn export(decls: &Vec<Decl>, ver: Version, flags: u32, pid: i32, cluster_id: u32, gen: i64) -> (r: Result<
    Export,
    ExportError,
>)
    ensures
        r matches Ok(e) ==> registration_ok(e.registration, decls_view(decls@), ver),
        r matches Ok(e) ==> strings_ok(e.registration.plan, e.registration.help_strs@, ver),
        r matches Ok(e) ==> e.image@ == image_of(ver, e.registration.plan, flags, pid, cluster_id & 0xfff, gen),
        r matches Ok(e) ==> e.cells@.len() == e.registration.plan.values@.len(),
        r matches Ok(e) ==> forall|k: int|
            0 <= k < e.cells@.len() ==> #[trigger] e.cells@[k] == cell_loc(
                plan_layout_of(ver, e.registration.plan),
                e.registration.plan.values@[k],
                k,
            ),
        (r matches Err(ExportError::TooLarge)) <==> cost(decls_view(decls@), decls@.len()) > 0xffff_ffff,
        r matches Err(ExportError::IndomClash(id)) ==> indom_clash(decls_view(decls@), id),
{
    let reg = match register(decls, ver) {
        Ok(reg) => reg,
        Err(x) => {
            return Err(x);
        },
    };
    let c = mask_cluster_id(cluster_id);
    let image = emit(ver, &reg.plan, flags, pid, c, gen);
    let p = &reg.plan;
    let l = plan_layout(
        ver,
        p.indoms.len() as u64,
        p.instances.len() as u64,
        p.metrics.len() as u64,
        p.values.len() as u64,
        p.strings.len() as u64,
    );
    let mut cells: Vec<(u64, u64)> = Vec::new();
    let mut i: usize = 0;
    while i < p.values.len()
        invariant
            plan_ok(*p),
            l == plan_layout_of(ver, *p),
            i <= p.values@.len(),
            cells@.len() == i,
            forall|k: int| 0 <= k < i ==> #[trigger] cells@[k] == cell_loc(l, p.values@[k], k),
        decreases p.values@.len() - i,
    {
        let v = p.values[i];
        let ghost nv = p.values@.len();
        let ghost ns = p.strings@.len();
        let cell = match v.str_cell {
            Some(k) => {
                assert(l.string_sec_off + 256 * k <= l.string_sec_off + 256 * ns);
                assert(l.string_sec_off + 256 * ns <= 0x1_0000_0000_0000) by {
                    crate::emit::lemma_layout_bounds_pub(ver, *p);
                }
                (l.string_sec_off + 256 * (k as u64), 256u64)
            },
            None => {
                assert(l.value_sec_off + 32 * nv <= 0x1_0000_0000_0000) by {
                    crate::emit::lemma_layout_bounds_pub(ver, *p);
                }
                (l.value_sec_off + 32 * (i as u64), 8u64)
            },
        };
        cells.push(cell);
        i = i + 1;
    }
    Ok(Export { registration: reg, image, cells })
}

/// The image with its second generation number set to the first.
pub open spec fn published(s: Seq<u8>) -> Seq<u8> {
    s.subrange(0, 16) + s.subrange(8, 16) + s.subrange(24, s.len() as int)
}

/// Publishes an image: stores the first generation number into the
/// second, the last write of an export.
pub fn publish(image: &mut Vec<u8>)
    requires
        old(image)@.len() >= 40,
    ensures
        final(image)@ == published(old(image)@),
{
    let mut k: usize = 0;
    while k < 8
        invariant
            k <= 8,
            image@.len() == old(image)@.len(),
            image@.len() >= 40,
            forall|j: int| 0 <= j < image@.len() && !(16 <= j < 16 + k) ==> image@[j] == old(image)@[j],
            forall|j: int| 16 <= j < 16 + k ==> image@[j] == old(image)@[j - 8],
        decreases 8 - k,
    {
        let b = image[8 + k];
        image.set(16 + k, b);
        k = k + 1;
    }
    assert(image@ =~= published(old(image)@));
}

proof fn lemma_window64(f: Seq<u8>, off: int, x: u64)
    requires
        0 <= off,
        off + 8 <= f.len(),
        f.subrange(off, off + 8) == le64(x),
    ensures
        get64(f, off) == x,
{
    crate::bytes::lemma_le64_round_trip(x);
    assert(forall|k: int| 0 <= k < 8 ==> f[off + k] == #[trigger] f.subrange(off, off + 8)[k]);
}

proof fn lemma_window32(f: Seq<u8>, off: int, x: u32)
    requires
        0 <= off,
        off + 4 <= f.len(),
        f.subrange(off, off + 4) == le32(x),
    ensures
        get32(f, off) == x,
{
    crate::bytes::lemma_le32_round_trip(x);
    assert(forall|k: int| 0 <= k < 4 ==> f[off + k] == #[trigger] f.subrange(off, off + 4)[k]);
}

/// The header that `header_bytes` lays down reads back field by field.
proof fn lemma_header_read(ver: Version, g1: u64, g2: u64, n_toc: u32, flags: u32, pid: i32, c: u32, rest: Seq<u8>)
    ensures
        ({
            let f = header_bytes(ver, g1 as i64, g2 as i64, n_toc, flags, pid, c) + rest;
            &&& get32(f, 4) == ver.spec_code()
            &&& get64(f, 8) == g1
            &&& get64(f, 16) == g2
            &&& get32(f, 24) == n_toc
            &&& get32(f, 28) == flags
            &&& get32(f, 32) == pid as u32
            &&& get32(f, 36) == c
            &&& f[0] == 77 && f[1] == 77 && f[2] == 86 && f[3] == 0
            &&& f.len() >= 40
        }),
{
    assert((g1 as i64) as u64 == g1) by (bit_vector);
    assert((g2 as i64) as u64 == g2) by (bit_vector);
    let h = header_bytes(ver, g1 as i64, g2 as i64, n_toc, flags, pid, c);
    let f = h + rest;
    assert(h.len() == 40);
    assert(f.subrange(4, 8) =~= le32(ver.spec_code()));
    lemma_window32(f, 4, ver.spec_code());
    assert(f.subrange(8, 16) =~= le64(g1));
    lemma_window64(f, 8, g1);
    assert(f.subrange(16, 24) =~= le64(g2));
    lemma_window64(f, 16, g2);
    assert(f.subrange(24, 28) =~= le32(n_toc));
    lemma_window32(f, 24, n_toc);
    assert(f.subrange(28, 32) =~= le32(flags));
    lemma_window32(f, 28, flags);
    assert(f.subrange(32, 36) =~= le32(pid as u32));
    lemma_window32(f, 32, pid as u32);
    assert(f.subrange(36, 40) =~= le32(c));
    lemma_window32(f, 36, c);
}

/// An image read before its publication is refused as being written: the
/// generation numbers differ.
pub proof fn lemma_unpublished_refused(ver: Version, p: Plan, flags: u32, pid: i32, cluster_id: u32, gen: i64)
    requires
        plan_ok(p),
        gen != 0,
    ensures
        header_of(image_of(ver, p, flags, pid, cluster_id & 0xfff, gen)) == Err::<Header, MMVDumpError>(
            MMVDumpError::GenerationMismatch,
        ),
{
    let c = cluster_id & 0xfff;
    let n_toc = plan_layout_of(ver, p).n_toc as u32;
    let g = gen as u64;
    assert((g as i64) == gen) by (bit_vector)
        requires
            g == gen as u64,
    ;
    assert(g != 0) by (bit_vector)
        requires
            g == gen as u64,
            gen != 0,
    ;
    let rest = image_body(ver, p);
    lemma_header_read(ver, g, 0, n_toc, flags, pid, c, rest);
    assert(header_bytes(ver, g as i64, 0u64 as i64, n_toc, flags, pid, c) == header_bytes(ver, gen, 0, n_toc, flags, pid, c));
}

/// A published file starts with `MMV\0` and a header that reads back: equal
/// generation numbers (the one given, not 0), two to five tables of
/// contents, and a cluster id within 12 bits.
pub proof fn lemma_published_header(ver: Version, p: Plan, flags: u32, pid: i32, cluster_id: u32, gen: i64)
    requires
        plan_ok(p),
        gen != 0,
    ensures
        ({
            let f = published(image_of(ver, p, flags, pid, cluster_id & 0xfff, gen));
            &&& f[0] == 77 && f[1] == 77 && f[2] == 86 && f[3] == 0
            &&& header_of(f) is Ok
            &&& header_of(f)->Ok_0.gen1 == gen
            &&& header_of(f)->Ok_0.gen2 == gen
            &&& 2 <= header_of(f)->Ok_0.toc_count <= 5
            &&& valid_cluster_id(header_of(f)->Ok_0.cluster_id)
            &&& header_of(f)->Ok_0.version == ver
        }),
{
    let c = cluster_id & 0xfff;
    assert(c >> 12 == 0) by (bit_vector)
        requires
            c == cluster_id & 0xfff,
    ;
    let n_toc = plan_layout_of(ver, p).n_toc as u32;
    assert(2 <= n_toc <= 5);
    let g = gen as u64;
    assert((g as i64) == gen) by (bit_vector)
        requires
            g == gen as u64,
    ;
    let rest = image_body(ver, p);
    lemma_published_form(ver, gen, n_toc, flags, pid, c, rest);
    lemma_header_read(ver, g, g, n_toc, flags, pid, c, rest);
}

proof fn lemma_published_form(ver: Version, gen: i64, n_toc: u32, flags: u32, pid: i32, c: u32, rest: Seq<u8>)
    ensures
        published(header_bytes(ver, gen, 0, n_toc, flags, pid, c) + rest) == header_bytes(
            ver,
            (gen as u64) as i64,
            (gen as u64) as i64,
            n_toc,
            flags,
            pid,
            c,
        ) + rest,
{
    let g = gen as u64;
    assert((g as i64) == gen) by (bit_vector)
        requires
            g == gen as u64,
    ;
    let h = header_bytes(ver, gen, 0, n_toc, flags, pid, c);
    let h2 = header_bytes(ver, gen, gen, n_toc, flags, pid, c);
    assert(h.len() == 40);
    assert(published(h + rest) =~= h2 + rest);
}

/// Exporting one plan twice, at other times or from another process, gives
/// images that differ only in the generation numbers (bytes 8 to 24) and
/// the process id (bytes 32 to 36); published, likewise.
pub proof fn lemma_reexport_same(
    ver: Version,
    p: Plan,
    flags: u32,
    cluster_id: u32,
    pid1: i32,
    gen1: i64,
    pid2: i32,
    gen2: i64,
)
    requires
        plan_ok(p),
    ensures
        ({
            let a = image_of(ver, p, flags, pid1, cluster_id, gen1);
            let b = image_of(ver, p, flags, pid2, cluster_id, gen2);
            &&& a.len() == b.len()
            &&& forall|j: int| 0 <= j < a.len() && !(8 <= j < 24) && !(32 <= j < 36) ==> a[j] == b[j]
            &&& forall|j: int|
                0 <= j < a.len() && !(8 <= j < 24) && !(32 <= j < 36) ==> published(a)[j] == published(b)[j]
        }),
{
    let n_toc = plan_layout_of(ver, p).n_toc as u32;
    let a = image_of(ver, p, flags, pid1, cluster_id, gen1);
    let b = image_of(ver, p, flags, pid2, cluster_id, gen2);
    let ha = header_bytes(ver, gen1, 0, n_toc, flags, pid1, cluster_id);
    let hb = header_bytes(ver, gen2, 0, n_toc, flags, pid2, cluster_id);
    let body = image_body(ver, p);
    assert(ha.len() == 40 && hb.len() == 40);
    assert forall|j: int| 0 <= j < 40 && !(8 <= j < 24) && !(32 <= j < 36) implies ha[j] == hb[j] by {
        let m = seq![77u8, 77u8, 86u8, 0u8];
        let v = le32(ver.spec_code());
        let t = le32(n_toc);
        let fl = le32(flags);
        let cc = le32(cluster_id);
        assert(ha =~= m + v + le64(gen1 as u64) + le64(0) + t + fl + le32(pid1 as u32) + cc);
        assert(hb =~= m + v + le64(gen2 as u64) + le64(0) + t + fl + le32(pid2 as u32) + cc);
    }
    assert forall|j: int| 0 <= j < a.len() && !(8 <= j < 24) && !(32 <= j < 36) implies a[j] == b[j] by {
        if j >= 40 {
            assert(a[j] == body[j - 40]);
            assert(b[j] == body[j - 40]);
        } else {
            assert(a[j] == ha[j]);
            assert(b[j] == hb[j]);
        }
    }
    assert forall|j: int|
        0 <= j < a.len() && !(8 <= j < 24) && !(32 <= j < 36) implies published(a)[j] == published(b)[j] by {
        assert(a[j] == b[j]);
        assert(published(a)[j] == a[j]);
        assert(published(b)[j] == b[j]);
    }
}

/// Each value cell is owned by one value block: the cells of two value
/// blocks never overlap.
/// (A registration keeps both requirements: `registration_ok` holds
/// `plan_ok` and `cells_distinct`.)
pub proof fn lemma_cells_disjoint(ver: Version, p: Plan, k1: int, k2: int)
    requires
        plan_ok(p),
        cells_distinct(p),
        0 <= k1 < k2 < p.values@.len(),
    ensures
        ({
            let l = plan_layout_of(ver, p);
            let c1 = cell_loc(l, p.values@[k1], k1);
            let c2 = cell_loc(l, p.values@[k2], k2);
            c1.0 + c1.1 <= c2.0 || c2.0 + c2.1 <= c1.0
        }),
{
    let l = plan_layout_of(ver, p);
    crate::emit::lemma_layout_bounds_pub(ver, p);
    let n = p.values@.len();
    let ns = p.strings@.len();
    let v1 = p.values@[k1];
    let v2 = p.values@[k2];
    assert(idx_ok(v1.str_cell, ns));
    assert(idx_ok(v2.str_cell, ns));
    if v1.str_cell is Some {
        assert(v1.str_cell != v2.str_cell);
    }
}

} // verus!
