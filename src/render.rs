//! The canonical text of a parsed file, as the dump prints it. Floating
//! point values are left as their bits, for the printer to format.
use vstd::prelude::*;
use vstd::utf8::encode_utf8;
use crate::bytes::put_bytes;
use crate::unit::{nibble, signed4, Count, Space, Time, Unit};
use crate::mmv::{
    instance_entries, metric_entries, string_entries, Header, IndomBlk, InstanceBlk, InstanceBlkView, MMVView, MetricBlk, NameView,
    StringBlk, TocBlk, VersionSpecificString, MMV, MetricBlkView, ValueBlk,
};

verus! {

/// Decimal digits of `n`.
pub open spec fn dec(n: nat) -> Seq<u8>
    decreases n,
{
    if n < 10 {
        seq![(48 + n) as u8]
    } else {
        dec(n / 10).push((48 + n % 10) as u8)
    }
}

/// Decimal form of `i`, with a minus sign when negative.
pub open spec fn sdec(i: int) -> Seq<u8> {
    if i < 0 {
        seq![45u8] + dec((-i) as nat)
    } else {
        dec(i as nat)
    }
}

/// A hexadecimal digit, lower case.
pub open spec fn hex_digit(d: nat) -> u8 {
    if d < 10 {
        (48 + d) as u8
    } else {
        (87 + d) as u8
    }
}

/// Hexadecimal digits of `n`, lower case.
pub open spec fn hexs(n: nat) -> Seq<u8>
    decreases n,
{
    if n < 16 {
        seq![hex_digit(n)]
    } else {
        hexs(n / 16).push(hex_digit(n % 16))
    }
}

/// Appends the decimal digits of `n`.
pub fn put_dec(out: &mut Vec<u8>, n: u64)
    ensures
        final(out)@ == old(out)@ + dec(n as nat),
    decreases n,
{
    if n >= 10 {
        put_dec(out, n / 10);
    }
    out.push((48 + n % 10) as u8);
    assert(final(out)@ =~= old(out)@ + dec(n as nat));
}

/// Appends the decimal form of `i`.
pub fn put_sdec(out: &mut Vec<u8>, i: i64)
    ensures
        final(out)@ == old(out)@ + sdec(i as int),
{
    if i < 0 {
        out.push(45);
        let m: u64 = if i == i64::MIN {
            0x8000_0000_0000_0000u64
        } else {
            (-i) as u64
        };
        put_dec(out, m);
        assert(final(out)@ =~= old(out)@ + sdec(i as int));
    } else {
        put_dec(out, i as u64);
    }
}

/// Appends the hexadecimal digits of `n`.
pub fn put_hex(out: &mut Vec<u8>, n: u64)
    ensures
        final(out)@ == old(out)@ + hexs(n as nat),
    decreases n,
{
    if n >= 16 {
        put_hex(out, n / 16);
    }
    let d = n % 16;
    let c: u8 = if d < 10 {
        (48 + d) as u8
    } else {
        (87 + d) as u8
    };
    out.push(c);
    assert(final(out)@ =~= old(out)@ + hexs(n as nat));
}

/// Appends the bytes of an ASCII literal given as bytes.
fn put_lit(out: &mut Vec<u8>, lit: &[u8])
    ensures
        final(out)@ == old(out)@ + lit@,
{
    put_bytes(out, lit);
}

/// `" (0x" + hex + ")"`.
pub open spec fn hex_suffix(n: nat) -> Seq<u8> {
    seq![32u8, 40, 48, 120] + hexs(n) + seq![41u8]
}

fn put_hex_suffix(out: &mut Vec<u8>, n: u64)
    ensures
        final(out)@ == old(out)@ + hex_suffix(n as nat),
{
    put_lit(out, &[32u8, 40, 48, 120]);
    put_hex(out, n);
    out.push(41);
    assert(final(out)@ =~= old(out)@ + hex_suffix(n as nat));
}

/// The text of a flags word: `no prefix`, `process`, `sentinel` joined by
/// commas, or `(no flags)`; then the word in hexadecimal.
pub open spec fn flags_text(f: u32) -> Seq<u8> {
    let a = f & 1 != 0;
    let b = f & 2 != 0;
    let c = f & 4 != 0;
    let s1 = if a { seq![110u8, 111, 32, 112, 114, 101, 102, 105, 120] } else { Seq::empty() };
    let s2 = if b { (if a { seq![44u8] } else { Seq::empty() }) + seq![112u8, 114, 111, 99, 101, 115, 115] } else { Seq::empty() };
    let s3 = if c { (if a || b { seq![44u8] } else { Seq::empty() }) + seq![115u8, 101, 110, 116, 105, 110, 101, 108] } else {
        Seq::empty()
    };
    let s4 = if !a && !b && !c { seq![40u8, 110, 111, 32, 102, 108, 97, 103, 115, 41] } else { Seq::empty() };
    s1 + s2 + s3 + s4 + hex_suffix(f as nat)
}

/// Appends the text of a flags word.
pub fn put_flags(out: &mut Vec<u8>, f: u32)
    ensures
        final(out)@ == old(out)@ + flags_text(f),
{
    let a = f & 1 != 0;
    let b = f & 2 != 0;
    let c = f & 4 != 0;
    if a {
        put_lit(out, &[110u8, 111, 32, 112, 114, 101, 102, 105, 120]);
    }
    if b {
        if a {
            out.push(44);
        }
        put_lit(out, &[112u8, 114, 111, 99, 101, 115, 115]);
    }
    if c {
        if a || b {
            out.push(44);
        }
        put_lit(out, &[115u8, 101, 110, 116, 105, 110, 101, 108]);
    }
    if !a && !b && !c {
        put_lit(out, &[40u8, 110, 111, 32, 102, 108, 97, 103, 115, 41]);
    }
    put_hex_suffix(out, f as u64);
    assert(final(out)@ =~= old(out)@ + flags_text(f));
}

/// The label of a space, time or count scale code, if it is one.
pub open spec fn scale_label(which: int, code: u32) -> Option<Seq<u8>> {
    if which == 0 {
        if code < 7 { Some(space_of(code).spec_label()) } else { None }
    } else if which == 1 {
        if code < 6 { Some(time_of(code).spec_label()) } else { None }
    } else {
        if code == 0 { Some(Count::One.spec_label()) } else { None }
    }
}

/// The space scale with code `c` below 7.
pub open spec fn space_of(c: u32) -> Space {
    if c == 0 { Space::Byte } else if c == 1 { Space::KByte } else if c == 2 { Space::MByte } else if c == 3 {
        Space::GByte
    } else if c == 4 { Space::TByte } else if c == 5 { Space::PByte } else { Space::EByte }
}

/// The time scale with code `c` below 6.
pub open spec fn time_of(c: u32) -> Time {
    if c == 0 { Time::NSec } else if c == 1 { Time::USec } else if c == 2 { Time::MSec } else if c == 3 { Time::Sec } else if c
        == 4 { Time::Min } else { Time::Hour }
}

/// One component of a unit's text: the scale label, `^n` when the
/// dimension's magnitude is above 1, and a space; nothing for a scale code
/// that names no scale.
pub open spec fn dim_text(which: int, dim: int, code: u32) -> Seq<u8> {
    match scale_label(which, code) {
        Some(l) => l + (if dim > 1 || dim < -1 { seq![94u8] + dec(if dim < 0 { (-dim) as nat } else { dim as nat }) } else {
            Seq::empty()
        }) + seq![32u8],
        None => Seq::empty(),
    }
}

/// The components of positive dimension, in space, time, count order.
pub open spec fn unit_pos(sd: int, td: int, cd: int, ss: u32, ts: u32, cs: u32) -> Seq<u8> {
    (if sd > 0 { dim_text(0, sd, ss) } else { Seq::empty() }) + (if td > 0 { dim_text(1, td, ts) } else { Seq::empty() })
        + (if cd > 0 { dim_text(2, cd, cs) } else { Seq::empty() })
}

/// `/ ` and the components of negative dimension, if there are any.
pub open spec fn unit_neg(sd: int, td: int, cd: int, ss: u32, ts: u32, cs: u32) -> Seq<u8> {
    if sd < 0 || td < 0 || cd < 0 {
        seq![47u8, 32] + (if sd < 0 { dim_text(0, sd, ss) } else { Seq::empty() }) + (if td < 0 { dim_text(1, td, ts) } else {
            Seq::empty()
        }) + (if cd < 0 { dim_text(2, cd, cs) } else { Seq::empty() })
    } else {
        Seq::empty()
    }
}

/// The text of a unit word: the components of positive dimension, then
/// `/ ` and those of negative dimension if any, then the word in
/// hexadecimal as `(0x..)`.
pub open spec fn unit_text(w: u32) -> Seq<u8> {
    let sd = signed4(nibble(w, 28));
    let td = signed4(nibble(w, 24));
    let cd = signed4(nibble(w, 20));
    let ss = nibble(w, 16);
    let ts = nibble(w, 12);
    let cs = nibble(w, 8);
    unit_pos(sd, td, cd, ss, ts, cs) + unit_neg(sd, td, cd, ss, ts, cs) + seq![40u8, 48, 120] + hexs(w as nat) + seq![41u8]
}

fn put_dim(out: &mut Vec<u8>, which: u8, dim: i8, code: u8)
    requires
        which < 3,
        code < 16,
    ensures
        final(out)@ == old(out)@ + dim_text(which as int, dim as int, code as u32),
{
    let label = if which == 0 {
        match Space::from_u8(code) {
            Some(s) => {
                assert(space_of(code as u32) == s);
                Some(s.label())
            },
            None => None,
        }
    } else if which == 1 {
        match Time::from_u8(code) {
            Some(t) => {
                assert(time_of(code as u32) == t);
                Some(t.label())
            },
            None => None,
        }
    } else {
        match Count::from_u8(code) {
            Some(c) => Some(c.label()),
            None => None,
        }
    };
    match label {
        Some(l) => {
            put_bytes(out, l.as_slice());
            if dim > 1 || dim < -1 {
                out.push(94);
                let m: u64 = if dim < 0 { (-(dim as i64)) as u64 } else { dim as u64 };
                put_dec(out, m);
            }
            out.push(32);
            assert(final(out)@ =~= old(out)@ + dim_text(which as int, dim as int, code as u32));
        },
        None => {
            assert(final(out)@ =~= old(out)@ + dim_text(which as int, dim as int, code as u32));
        },
    }
}

fn put_unit_pos(out: &mut Vec<u8>, sd: i8, td: i8, cd: i8, ss: u8, ts: u8, cs: u8)
    requires
        ss < 16,
        ts < 16,
        cs < 16,
    ensures
        final(out)@ == old(out)@ + unit_pos(sd as int, td as int, cd as int, ss as u32, ts as u32, cs as u32),
{
    if sd > 0 {
        put_dim(out, 0, sd, ss);
    }
    if td > 0 {
        put_dim(out, 1, td, ts);
    }
    if cd > 0 {
        put_dim(out, 2, cd, cs);
    }
    assert(final(out)@ =~= old(out)@ + unit_pos(sd as int, td as int, cd as int, ss as u32, ts as u32, cs as u32));
}

fn put_unit_neg(out: &mut Vec<u8>, sd: i8, td: i8, cd: i8, ss: u8, ts: u8, cs: u8)
    requires
        ss < 16,
        ts < 16,
        cs < 16,
    ensures
        final(out)@ == old(out)@ + unit_neg(sd as int, td as int, cd as int, ss as u32, ts as u32, cs as u32),
{
    if sd < 0 || td < 0 || cd < 0 {
        out.push(47);
        out.push(32);
        if sd < 0 {
            put_dim(out, 0, sd, ss);
        }
        if td < 0 {
            put_dim(out, 1, td, ts);
        }
        if cd < 0 {
            put_dim(out, 2, cd, cs);
        }
        assert(final(out)@ =~= old(out)@ + unit_neg(sd as int, td as int, cd as int, ss as u32, ts as u32, cs as u32));
    }
}

/// Appends the text of a unit word.
pub fn put_unit(out: &mut Vec<u8>, w: u32)
    ensures
        final(out)@ == old(out)@ + unit_text(w),
{
    let u = Unit::from_raw(w);
    let sd = u.space_dim();
    let td = u.time_dim();
    let cd = u.count_dim();
    let ss = u.space_scale();
    let ts = u.time_scale();
    let cs = u.count_scale();
    put_unit_pos(out, sd, td, cd, ss, ts, cs);
    put_unit_neg(out, sd, td, cd, ss, ts, cs);
    put_lit(out, &[40u8, 48, 120]);
    put_hex(out, w as u64);
    out.push(41);
    assert(final(out)@ =~= old(out)@ + unit_text(w));
}

/// A part of the dump: text, or a float to print from its bits.
pub enum Piece {
    Text(Vec<u8>),
    F32(u32),
    F64(u64),
}

/// What a `Piece` holds.
pub enum PieceView {
    Text(Seq<u8>),
    F32(u32),
    F64(u64),
}

impl View for Piece {
    type V = PieceView;

    open spec fn view(&self) -> PieceView {
        match self {
            Piece::Text(t) => PieceView::Text(t@),
            Piece::F32(x) => PieceView::F32(*x),
            Piece::F64(x) => PieceView::F64(*x),
        }
    }
}

/// The views of pieces.
pub open spec fn pieces(v: Seq<Piece>) -> Seq<PieceView> {
    v.map_values(|p: Piece| p@)
}

fn push_piece(out: &mut Vec<Piece>, p: Piece)
    ensures
        pieces(final(out)@) == pieces(old(out)@).push(p@),
{
    let ghost pv = p@;
    out.push(p);
    assert(pieces(final(out)@) =~= pieces(old(out)@).push(pv));
}

/// The header's lines.
pub open spec fn header_text(h: Header) -> Seq<u8> {
    seq![86u8, 101, 114, 115, 105, 111, 110, 32, 32, 32, 32, 61, 32] + dec(h.version.spec_code() as nat) + seq![10u8] + seq![71u8, 101, 110, 101, 114, 97, 116, 101, 100, 32, 32, 61, 32] + sdec(h.gen1 as int) + seq![10u8] + seq![84u8, 79, 67, 32, 99, 111, 117, 110, 116, 32, 32, 61, 32] + dec(
        h.toc_count as nat,
    ) + seq![10u8] + seq![67u8, 108, 117, 115, 116, 101, 114, 32, 32, 32, 32, 61, 32] + dec(h.cluster_id as nat) + seq![10u8] + seq![80u8, 114, 111, 99, 101, 115, 115, 32, 32, 32, 32, 61, 32] + sdec(h.pid as int) + seq![10u8]
        + seq![70u8, 108, 97, 103, 115, 32, 32, 32, 32, 32, 32, 61, 32] + flags_text(h.flags) + seq![10u8]
}

/// Appends the header's lines.
pub fn put_header(out: &mut Vec<u8>, h: &Header)
    ensures
        final(out)@ == old(out)@ + header_text(*h),
{
    put_lit(out, &[86u8, 101, 114, 115, 105, 111, 110, 32, 32, 32, 32, 61, 32]);
    put_dec(out, h.version.code() as u64);
    out.push(10);
    put_lit(out, &[71u8, 101, 110, 101, 114, 97, 116, 101, 100, 32, 32, 61, 32]);
    put_sdec(out, h.gen1);
    out.push(10);
    put_lit(out, &[84u8, 79, 67, 32, 99, 111, 117, 110, 116, 32, 32, 61, 32]);
    put_dec(out, h.toc_count as u64);
    out.push(10);
    put_lit(out, &[67u8, 108, 117, 115, 116, 101, 114, 32, 32, 32, 32, 61, 32]);
    put_dec(out, h.cluster_id as u64);
    out.push(10);
    put_lit(out, &[80u8, 114, 111, 99, 101, 115, 115, 32, 32, 32, 32, 61, 32]);
    put_sdec(out, h.pid as i64);
    out.push(10);
    put_lit(out, &[70u8, 108, 97, 103, 115, 32, 32, 32, 32, 32, 32, 61, 32]);
    put_flags(out, h.flags);
    out.push(10);
    assert(final(out)@ =~= old(out)@ + header_text(*h));
}

/// The line that introduces a section: its table's index and offset, the
/// section's name, offset and number of entries.
pub open spec fn toc_line(t: TocBlk, what: Seq<u8>) -> Seq<u8> {
    seq![84u8, 79, 67, 91] + dec(t._toc_index as nat) + seq![93u8, 58, 32, 116, 111, 99, 32, 111, 102, 102, 115, 101, 116, 32] + dec(t._mmv_offset as nat) + seq![44u8, 32] + what + seq![32u8, 111, 102, 102, 115, 101, 116, 32] + dec(
        t.sec_offset as nat,
    ) + seq![32u8, 40] + dec(t.entries as nat) + seq![32u8, 101, 110, 116, 114, 105, 101, 115, 41, 10]
}

fn put_toc_line(out: &mut Vec<u8>, t: &TocBlk, what: &[u8])
    ensures
        final(out)@ == old(out)@ + toc_line(*t, what@),
{
    put_lit(out, &[84u8, 79, 67, 91]);
    put_dec(out, t._toc_index as u64);
    put_lit(out, &[93u8, 58, 32, 116, 111, 99, 32, 111, 102, 102, 115, 101, 116, 32]);
    put_dec(out, t._mmv_offset);
    put_lit(out, &[44u8, 32]);
    put_lit(out, what);
    put_lit(out, &[32u8, 111, 102, 102, 115, 101, 116, 32]);
    put_dec(out, t.sec_offset);
    put_lit(out, &[32u8, 40]);
    put_dec(out, t.entries as u64);
    put_lit(out, &[32u8, 101, 110, 116, 114, 105, 101, 115, 41, 10]);
    assert(final(out)@ =~= old(out)@ + toc_line(*t, what@));
}

/// The block keyed by `off`: the first entry with that offset.
pub open spec fn find<B>(s: Seq<(u64, B)>, off: u64) -> Option<B>
    decreases s.len(),
{
    if s.len() == 0 {
        None
    } else if s[0].0 == off {
        Some(s[0].1)
    } else {
        find(s.drop_first(), off)
    }
}

proof fn lemma_find<B>(s: Seq<(u64, B)>, off: u64, i: int)
    requires
        0 <= i <= s.len(),
        forall|j: int| 0 <= j < i ==> (#[trigger] s[j]).0 != off,
        i < s.len() ==> s[i].0 == off,
    ensures
        find(s, off) == (if i < s.len() { Some(s[i].1) } else { None::<B> }),
    decreases i,
{
    if i > 0 {
        assert(s[0].0 != off);
        lemma_find(s.drop_first(), off, i - 1);
    }
}

/// The text of a string block found at `off`, if any.
pub open spec fn str_at(m: MMVView, off: u64) -> Option<Seq<char>> {
    find(m.string_blks, off)
}

fn find_string<'a>(v: &'a Vec<(u64, StringBlk)>, off: u64) -> (r: Option<&'a StringBlk>)
    ensures
        r matches Some(b) ==> find(string_entries(v@), off) == Some(b.string@),
        r is None ==> find(string_entries(v@), off) is None,
{
    let mut i: usize = 0;
    while i < v.len()
        invariant
            i <= v@.len(),
            forall|j: int| 0 <= j < i ==> (#[trigger] v@[j]).0 != off,
        decreases v@.len() - i,
    {
        if v[i].0 == off {
            proof {
                let s = string_entries(v@);
                assert forall|j: int| 0 <= j < i implies (#[trigger] s[j]).0 != off by {
                    assert(s[j].0 == v@[j].0);
                }
                lemma_find(s, off, i as int);
            }
            return Some(&v[i].1);
        }
        i = i + 1;
    }
    proof {
        let s = string_entries(v@);
        assert forall|j: int| 0 <= j < s.len() implies (#[trigger] s[j]).0 != off by {
            assert(s[j].0 == v@[j].0);
        }
        lemma_find(s, off, s.len() as int);
    }
    None
}

fn find_metric<'a>(v: &'a Vec<(u64, MetricBlk)>, off: u64) -> (r: Option<&'a MetricBlk>)
    ensures
        r matches Some(b) ==> find(metric_entries(v@), off) == Some(b@),
        r is None ==> find(metric_entries(v@), off) is None,
{
    let mut i: usize = 0;
    while i < v.len()
        invariant
            i <= v@.len(),
            forall|j: int| 0 <= j < i ==> (#[trigger] v@[j]).0 != off,
        decreases v@.len() - i,
    {
        if v[i].0 == off {
            proof {
                let s = metric_entries(v@);
                assert forall|j: int| 0 <= j < i implies (#[trigger] s[j]).0 != off by {
                    assert(s[j].0 == v@[j].0);
                }
                lemma_find(s, off, i as int);
            }
            return Some(&v[i].1);
        }
        i = i + 1;
    }
    proof {
        let s = metric_entries(v@);
        assert forall|j: int| 0 <= j < s.len() implies (#[trigger] s[j]).0 != off by {
            assert(s[j].0 == v@[j].0);
        }
        lemma_find(s, off, s.len() as int);
    }
    None
}

fn find_instance<'a>(v: &'a Vec<(u64, InstanceBlk)>, off: u64) -> (r: Option<&'a InstanceBlk>)
    ensures
        r matches Some(b) ==> find(instance_entries(v@), off) == Some(b@),
        r is None ==> find(instance_entries(v@), off) is None,
{
    let mut i: usize = 0;
    while i < v.len()
        invariant
            i <= v@.len(),
            forall|j: int| 0 <= j < i ==> (#[trigger] v@[j]).0 != off,
        decreases v@.len() - i,
    {
        if v[i].0 == off {
            proof {
                let s = instance_entries(v@);
                assert forall|j: int| 0 <= j < i implies (#[trigger] s[j]).0 != off by {
                    assert(s[j].0 == v@[j].0);
                }
                lemma_find(s, off, i as int);
            }
            return Some(&v[i].1);
        }
        i = i + 1;
    }
    proof {
        let s = instance_entries(v@);
        assert forall|j: int| 0 <= j < s.len() implies (#[trigger] s[j]).0 != off by {
            assert(s[j].0 == v@[j].0);
        }
        lemma_find(s, off, s.len() as int);
    }
    None
}

fn find_indom(v: &Vec<(u64, IndomBlk)>, off: u64) -> (r: Option<IndomBlk>)
    ensures
        r == find(v@, off),
{
    let mut i: usize = 0;
    while i < v.len()
        invariant
            i <= v@.len(),
            forall|j: int| 0 <= j < i ==> (#[trigger] v@[j]).0 != off,
        decreases v@.len() - i,
    {
        if v[i].0 == off {
            proof {
                lemma_find(v@, off, i as int);
            }
            return Some(v[i].1);
        }
        i = i + 1;
    }
    proof {
        lemma_find(v@, off, v@.len() as int);
    }
    None
}

/// The bytes of a name: inline, or the string block it points at (nothing
/// if there is none).
pub open spec fn name_text(m: MMVView, n: NameView) -> Seq<u8> {
    match n {
        NameView::Text(t) => encode_utf8(t),
        NameView::Offset(o) => match str_at(m, o) {
            Some(s) => encode_utf8(s),
            None => Seq::empty(),
        },
    }
}

fn put_name(out: &mut Vec<u8>, m: &MMV, n: &VersionSpecificString)
    ensures
        final(out)@ == old(out)@ + name_text(m@, n@),
{
    match n {
        VersionSpecificString::String(s) => {
            put_bytes(out, s.as_str().as_bytes());
        },
        VersionSpecificString::Offset(o) => {
            match find_string(m.string_blks(), *o) {
                Some(b) => {
                    put_bytes(out, b.string().as_bytes());
                },
                None => {
                    assert(out@ =~= old(out)@ + Seq::<u8>::empty());
                },
            }
        },
    }
}

/// A help line: `shorttext=..` (or `longtext=..`) for a help text found at
/// the offset, else `(no shorttext)`; indented, ended by a newline.
pub open spec fn help_line(m: MMVView, off: Option<u64>, long: bool) -> Seq<u8> {
    seq![32u8, 32, 32, 32, 32, 32] + match off {
        Some(o) => match str_at(m, o) {
            Some(s) => (if long { seq![108u8, 111, 110, 103, 116, 101, 120, 116, 61] } else { seq![115u8, 104, 111, 114, 116, 116, 101, 120, 116, 61] }) + encode_utf8(s),
            None => if long { seq![40u8, 110, 111, 32, 108, 111, 110, 103, 116, 101, 120, 116, 41] } else { seq![40u8, 110, 111, 32, 115, 104, 111, 114, 116, 116, 101, 120, 116, 41] },
        },
        None => if long { seq![40u8, 110, 111, 32, 108, 111, 110, 103, 116, 101, 120, 116, 41] } else { seq![40u8, 110, 111, 32, 115, 104, 111, 114, 116, 116, 101, 120, 116, 41] },
    } + seq![10u8]
}

fn put_help_line(out: &mut Vec<u8>, m: &MMV, off: Option<u64>, long: bool)
    ensures
        final(out)@ == old(out)@ + help_line(m@, off, long),
{
    put_lit(out, &[32u8, 32, 32, 32, 32, 32]);
    let found = match off {
        Some(o) => find_string(m.string_blks(), o),
        None => None,
    };
    match found {
        Some(b) => {
            if long {
                put_lit(out, &[108u8, 111, 110, 103, 116, 101, 120, 116, 61]);
            } else {
                put_lit(out, &[115u8, 104, 111, 114, 116, 116, 101, 120, 116, 61]);
            }
            put_bytes(out, b.string().as_bytes());
        },
        None => {
            if long {
                put_lit(out, &[40u8, 110, 111, 32, 108, 111, 110, 103, 116, 101, 120, 116, 41]);
            } else {
                put_lit(out, &[40u8, 110, 111, 32, 115, 104, 111, 114, 116, 116, 101, 120, 116, 41]);
            }
        },
    }
    out.push(10);
    assert(final(out)@ =~= old(out)@ + help_line(m@, off, long));
}

/// The lines of instance domain block `b` at `off`; none without a valid id.
pub open spec fn indom_text(m: MMVView, off: u64, b: IndomBlk) -> Seq<u8> {
    match b.indom {
        None => Seq::empty(),
        Some(id) => seq![32u8, 32, 91] + dec(id as nat) + seq![47u8] + dec(off as nat) + seq![93u8, 32] + dec(
            b.instances as nat,
        ) + seq![32u8, 105, 110, 115, 116, 97, 110, 99, 101, 115, 44, 32, 115, 116, 97, 114, 116, 105, 110, 103, 32, 97, 116, 32, 111, 102, 102, 115, 101, 116, 32] + match b.instances_offset {
            Some(o) => dec(o as nat),
            None => seq![40u8, 110, 111, 32, 105, 110, 115, 116, 97, 110, 99, 101, 115, 41],
        } + seq![10u8] + help_line(m, b.short_help_offset, false) + help_line(m, b.long_help_offset, true),
    }
}

/// The lines of the first `n` blocks of a section, each by `f`.
pub open spec fn lines_of<B>(s: Seq<(u64, B)>, n: nat, f: spec_fn(u64, B) -> Seq<u8>) -> Seq<u8>
    decreases n,
{
    if n == 0 || n > s.len() {
        Seq::empty()
    } else {
        lines_of(s, (n - 1) as nat, f) + f(s[n - 1].0, s[n - 1].1)
    }
}

/// Texts of instance domain blocks.
pub open spec fn indom_texts(m: MMVView) -> spec_fn(u64, IndomBlk) -> Seq<u8> {
    |off: u64, b: IndomBlk| indom_text(m, off, b)
}

fn put_indoms(out: &mut Vec<u8>, m: &MMV, t: &TocBlk)
    ensures
        final(out)@ == old(out)@ + toc_line(*t, seq![105u8, 110, 100, 111, 109, 115]) + lines_of(m@.indom_blks, m@.indom_blks.len(), indom_texts(m@)),
{
    put_toc_line(out, t, &[105u8, 110, 100, 111, 109, 115]);
    let ghost base = out@;
    let v = m.indom_blks();
    let mut i: usize = 0;
    while i < v.len()
        invariant
            v@ == m@.indom_blks,
            i <= v@.len(),
            out@ == base + lines_of(v@, i as nat, indom_texts(m@)),
        decreases v@.len() - i,
    {
        let off = v[i].0;
        let b = v[i].1;
        let ghost before = out@;
        match b.indom {
            None => {},
            Some(id) => {
                put_lit(out, &[32u8, 32, 91]);
                put_dec(out, id as u64);
                out.push(47);
                put_dec(out, off);
                put_lit(out, &[93u8, 32]);
                put_dec(out, b.instances as u64);
                put_lit(out, &[32u8, 105, 110, 115, 116, 97, 110, 99, 101, 115, 44, 32, 115, 116, 97, 114, 116, 105, 110, 103, 32, 97, 116, 32, 111, 102, 102, 115, 101, 116, 32]);
                match b.instances_offset {
                    Some(o) => put_dec(out, o),
                    None => put_lit(out, &[40u8, 110, 111, 32, 105, 110, 115, 116, 97, 110, 99, 101, 115, 41]),
                }
                out.push(10);
                put_help_line(out, m, b.short_help_offset, false);
                put_help_line(out, m, b.long_help_offset, true);
            },
        }
        assert(out@ =~= before + indom_text(m@, off, b));
        i = i + 1;
        assert(out@ =~= base + lines_of(v@, i as nat, indom_texts(m@)));
    }
    assert(final(out)@ =~= old(out)@ + toc_line(*t, seq![105u8, 110, 100, 111, 109, 115]) + lines_of(m@.indom_blks, m@.indom_blks.len(), indom_texts(m@)));
}

/// The line of instance block `b` at `off`.
pub open spec fn instance_text(m: MMVView, off: u64, b: InstanceBlkView) -> Seq<u8> {
    seq![32u8, 32] + match b.indom_offset {
        Some(io) => match find(m.indom_blks, io) {
            Some(d) => match d.indom {
                Some(id) => seq![91u8] + dec(id as nat),
                None => seq![91u8, 40, 110, 111, 32, 105, 110, 100, 111, 109, 41],
            },
            None => seq![91u8, 40, 110, 111, 32, 105, 110, 100, 111, 109, 41],
        },
        None => seq![91u8, 40, 110, 111, 32, 105, 110, 100, 111, 109, 41],
    } + seq![47u8] + dec(off as nat) + seq![93u8, 32, 105, 110, 115, 116, 97, 110, 99, 101, 32, 61, 32, 91] + sdec(b.internal_id as int) + seq![32u8, 111, 114, 32, 34] + name_text(m, b.external_id) + seq![
        34u8,
        93,
        10,
    ]
}

/// Texts of instance blocks.
pub open spec fn instance_texts(m: MMVView) -> spec_fn(u64, InstanceBlkView) -> Seq<u8> {
    |off: u64, b: InstanceBlkView| instance_text(m, off, b)
}

fn put_instances(out: &mut Vec<u8>, m: &MMV, t: &TocBlk)
    ensures
        final(out)@ == old(out)@ + toc_line(*t, seq![105u8, 110, 115, 116, 97, 110, 99, 101, 115]) + lines_of(
            m@.instance_blks,
            m@.instance_blks.len(),
            instance_texts(m@),
        ),
{
    put_toc_line(out, t, &[105u8, 110, 115, 116, 97, 110, 99, 101, 115]);
    let ghost base = out@;
    let v = m.instance_blks();
    let mut i: usize = 0;
    while i < v.len()
        invariant
            instance_entries(v@) == m@.instance_blks,
            i <= v@.len(),
            out@ == base + lines_of(instance_entries(v@), i as nat, instance_texts(m@)),
        decreases v@.len() - i,
    {
        let off = v[i].0;
        let b = &v[i].1;
        let ghost before = out@;
        put_lit(out, &[32u8, 32]);
        let id = match b.indom_offset {
            Some(io) => match find_indom(m.indom_blks(), io) {
                Some(d) => d.indom,
                None => None,
            },
            None => None,
        };
        match id {
            Some(id) => {
                out.push(91);
                put_dec(out, id as u64);
            },
            None => put_lit(out, &[91u8, 40, 110, 111, 32, 105, 110, 100, 111, 109, 41]),
        }
        out.push(47);
        put_dec(out, off);
        put_lit(out, &[93u8, 32, 105, 110, 115, 116, 97, 110, 99, 101, 32, 61, 32, 91]);
        put_sdec(out, b.internal_id as i64);
        put_lit(out, &[32u8, 111, 114, 32, 34]);
        put_name(out, m, &b.external_id);
        put_lit(out, &[34u8, 93, 10]);
        assert(instance_entries(v@)[i as int] == (off, b@));
        assert(out@ =~= before + instance_text(m@, off, b@));
        i = i + 1;
        assert(out@ =~= base + lines_of(instance_entries(v@), i as nat, instance_texts(m@)));
    }
    assert(final(out)@ =~= old(out)@ + toc_line(*t, seq![105u8, 110, 115, 116, 97, 110, 99, 101, 115]) + lines_of(
        m@.instance_blks,
        m@.instance_blks.len(),
        instance_texts(m@),
    ));
}

/// The name of a type code below 7.
pub open spec fn type_label(t: u32) -> Seq<u8> {
    if t == 0 { seq![73u8, 110, 116, 51, 50] } else if t == 1 { seq![85u8, 105, 110, 116, 51, 50] } else if t == 2 { seq![73u8, 110, 116, 54, 52] } else if t == 3 { seq![85u8, 105, 110, 116, 54, 52] } else if t == 4 { seq![70u8, 108, 111, 97, 116, 51, 50] } else if t == 5 {
        seq![68u8, 111, 117, 98, 108, 101, 54, 52]
    } else { seq![83u8, 116, 114, 105, 110, 103] }
}

fn type_label_of(t: u32) -> (r: &'static [u8])
    requires
        t < 7,
    ensures
        r@ == type_label(t),
{
    if t == 0 {
        &[73u8, 110, 116, 51, 50]
    } else if t == 1 {
        &[85u8, 105, 110, 116, 51, 50]
    } else if t == 2 {
        &[73u8, 110, 116, 54, 52]
    } else if t == 3 {
        &[85u8, 105, 110, 116, 54, 52]
    } else if t == 4 {
        &[70u8, 108, 111, 97, 116, 51, 50]
    } else if t == 5 {
        &[68u8, 111, 117, 98, 108, 101, 54, 52]
    } else {
        &[83u8, 116, 114, 105, 110, 103]
    }
}

/// The name of a semantics code 1, 3 or 4.
pub open spec fn sem_label(s: u32) -> Seq<u8> {
    if s == 1 { seq![99u8, 111, 117, 110, 116, 101, 114] } else if s == 3 { seq![105u8, 110, 115, 116, 97, 110, 116] } else { seq![100u8, 105, 115, 99, 114, 101, 116, 101] }
}

/// The type part of a metric block's second line.
pub open spec fn type_part(typ: u32) -> Seq<u8> {
    if typ < 7 { seq![116u8, 121, 112, 101, 61] + type_label(typ) + hex_suffix(typ as nat) } else { seq![40u8, 105, 110, 118, 97, 108, 105, 100, 32, 116, 121, 112, 101, 41] }
}

fn put_type_part(out: &mut Vec<u8>, typ: u32)
    ensures
        final(out)@ == old(out)@ + type_part(typ),
{
    if typ < 7 {
        put_lit(out, &[116u8, 121, 112, 101, 61]);
        put_lit(out, type_label_of(typ));
        put_hex_suffix(out, typ as u64);
    } else {
        put_lit(out, &[40u8, 105, 110, 118, 97, 108, 105, 100, 32, 116, 121, 112, 101, 41]);
    }
    assert(final(out)@ =~= old(out)@ + type_part(typ));
}

/// The semantics part of a metric block's second line.
pub open spec fn sem_part(sem: u32) -> Seq<u8> {
    if sem == 1 || sem == 3 || sem == 4 { seq![115u8, 101, 109, 61] + sem_label(sem) + hex_suffix(sem as nat) } else { seq![40u8, 105, 110, 118, 97, 108, 105, 100, 32, 115, 101, 109, 97, 110, 116, 105, 99, 115, 41] }
}

fn put_sem_part(out: &mut Vec<u8>, sem: u32)
    ensures
        final(out)@ == old(out)@ + sem_part(sem),
{
    if sem == 1 || sem == 3 || sem == 4 {
        put_lit(out, &[115u8, 101, 109, 61]);
        if sem == 1 {
            put_lit(out, &[99u8, 111, 117, 110, 116, 101, 114]);
        } else if sem == 3 {
            put_lit(out, &[105u8, 110, 115, 116, 97, 110, 116]);
        } else {
            put_lit(out, &[100u8, 105, 115, 99, 114, 101, 116, 101]);
        }
        put_hex_suffix(out, sem as u64);
    } else {
        put_lit(out, &[40u8, 105, 110, 118, 97, 108, 105, 100, 32, 115, 101, 109, 97, 110, 116, 105, 99, 115, 41]);
    }
    assert(final(out)@ =~= old(out)@ + sem_part(sem));
}

/// The second line of a metric block: type, semantics and pad.
pub open spec fn kind_text(typ: u32, sem: u32, pad: u32) -> Seq<u8> {
    seq![32u8, 32, 32, 32, 32, 32] + type_part(typ) + seq![44u8, 32] + sem_part(sem) + seq![44u8, 32, 112, 97, 100, 61, 48, 120] + hexs(pad as nat) + seq![10u8]
}

fn put_kind(out: &mut Vec<u8>, typ: u32, sem: u32, pad: u32)
    ensures
        final(out)@ == old(out)@ + kind_text(typ, sem, pad),
{
    put_lit(out, &[32u8, 32, 32, 32, 32, 32]);
    put_type_part(out, typ);
    put_lit(out, &[44u8, 32]);
    put_sem_part(out, sem);
    put_lit(out, &[44u8, 32, 112, 97, 100, 61, 48, 120]);
    put_hex(out, pad as u64);
    out.push(10);
    assert(final(out)@ =~= old(out)@ + kind_text(typ, sem, pad));
}

/// The unit and instance domain lines of a metric block.
pub open spec fn unit_indom_text(unit: u32, indom: Option<u32>) -> Seq<u8> {
    seq![32u8, 32, 32, 32, 32, 32, 117, 110, 105, 116, 61] + unit_text(unit) + seq![10u8] + seq![32u8, 32, 32, 32, 32, 32] + match indom {
        Some(x) => seq![105u8, 110, 100, 111, 109, 61] + dec(x as nat),
        None => seq![40u8, 110, 111, 32, 105, 110, 100, 111, 109, 41],
    } + seq![10u8]
}

fn put_unit_indom(out: &mut Vec<u8>, unit: u32, indom: Option<u32>)
    ensures
        final(out)@ == old(out)@ + unit_indom_text(unit, indom),
{
    put_lit(out, &[32u8, 32, 32, 32, 32, 32, 117, 110, 105, 116, 61]);
    put_unit(out, unit);
    out.push(10);
    put_lit(out, &[32u8, 32, 32, 32, 32, 32]);
    match indom {
        Some(x) => {
            put_lit(out, &[105u8, 110, 100, 111, 109, 61]);
            put_dec(out, x as u64);
        },
        None => put_lit(out, &[40u8, 110, 111, 32, 105, 110, 100, 111, 109, 41]),
    }
    out.push(10);
    assert(final(out)@ =~= old(out)@ + unit_indom_text(unit, indom));
}

/// `"  [" + a + "/" + b + "] "`.
pub open spec fn tag_text(a: nat, b: nat) -> Seq<u8> {
    seq![32u8, 32, 91] + dec(a) + seq![47u8] + dec(b) + seq![93u8, 32]
}

fn put_tag(out: &mut Vec<u8>, a: u64, b: u64)
    ensures
        final(out)@ == old(out)@ + tag_text(a as nat, b as nat),
{
    put_lit(out, &[32u8, 32, 91]);
    put_dec(out, a);
    out.push(47);
    put_dec(out, b);
    put_lit(out, &[93u8, 32]);
    assert(final(out)@ =~= old(out)@ + tag_text(a as nat, b as nat));
}

/// The lines of metric block `b` at `off`; none without a valid item.
pub open spec fn metric_text(m: MMVView, off: u64, b: MetricBlkView) -> Seq<u8> {
    match b.item {
        None => Seq::empty(),
        Some(item) => tag_text(item as nat, off as nat) + name_text(m, b.name) + seq![10u8] + kind_text(b.typ, b.sem, b.pad)
            + unit_indom_text(b.unit, b.indom) + help_line(m, b.short_help_offset, false) + help_line(
            m,
            b.long_help_offset,
            true,
        ),
    }
}

/// Texts of metric blocks.
pub open spec fn metric_texts(m: MMVView) -> spec_fn(u64, MetricBlkView) -> Seq<u8> {
    |off: u64, b: MetricBlkView| metric_text(m, off, b)
}

fn put_metric_text(out: &mut Vec<u8>, m: &MMV, off: u64, b: &MetricBlk)
    ensures
        final(out)@ == old(out)@ + metric_text(m@, off, b@),
{
    match b.item {
        None => {
            assert(out@ =~= old(out)@ + metric_text(m@, off, b@));
        },
        Some(item) => {
            put_tag(out, item as u64, off);
            put_name(out, m, &b.name);
            out.push(10);
            put_kind(out, b.typ, b.sem, b.pad);
            put_unit_indom(out, b.unit, b.indom);
            put_help_line(out, m, b.short_help_offset, false);
            put_help_line(out, m, b.long_help_offset, true);
            assert(final(out)@ =~= old(out)@ + metric_text(m@, off, b@));
        },
    }
}

fn put_metrics(out: &mut Vec<u8>, m: &MMV, t: &TocBlk)
    ensures
        final(out)@ == old(out)@ + toc_line(*t, seq![109u8, 101, 116, 114, 105, 99, 115]) + lines_of(m@.metric_blks, m@.metric_blks.len(), metric_texts(m@)),
{
    put_toc_line(out, t, &[109u8, 101, 116, 114, 105, 99, 115]);
    let ghost base = out@;
    let v = m.metric_blks();
    let mut i: usize = 0;
    while i < v.len()
        invariant
            metric_entries(v@) == m@.metric_blks,
            i <= v@.len(),
            out@ == base + lines_of(metric_entries(v@), i as nat, metric_texts(m@)),
        decreases v@.len() - i,
    {
        let off = v[i].0;
        let ghost before = out@;
        put_metric_text(out, m, off, &v[i].1);
        assert(metric_entries(v@)[i as int] == (off, v@[i as int].1@));
        i = i + 1;
        assert(out@ =~= base + lines_of(metric_entries(v@), i as nat, metric_texts(m@)));
    }
    assert(final(out)@ =~= old(out)@ + toc_line(*t, seq![109u8, 101, 116, 114, 105, 99, 115]) + lines_of(m@.metric_blks, m@.metric_blks.len(), metric_texts(m@)));
}

/// The line of string block `k` (counted from 1) at `off`.
pub open spec fn string_text(k: nat, off: u64, s: Seq<char>) -> Seq<u8> {
    seq![32u8, 32, 91] + dec(k) + seq![47u8] + dec(off as nat) + seq![93u8, 32] + encode_utf8(s) + seq![10u8]
}

/// The lines of the first `n` string blocks.
pub open spec fn strings_text(s: Seq<(u64, Seq<char>)>, n: nat) -> Seq<u8>
    decreases n,
{
    if n == 0 || n > s.len() {
        Seq::empty()
    } else {
        strings_text(s, (n - 1) as nat) + string_text(n, s[n - 1].0, s[n - 1].1)
    }
}

fn put_strings(out: &mut Vec<u8>, m: &MMV, t: &TocBlk)
    ensures
        final(out)@ == old(out)@ + toc_line(*t, seq![115u8, 116, 114, 105, 110, 103, 115]) + strings_text(m@.string_blks, m@.string_blks.len()),
{
    put_toc_line(out, t, &[115u8, 116, 114, 105, 110, 103, 115]);
    let ghost base = out@;
    let v = m.string_blks();
    let mut i: usize = 0;
    while i < v.len()
        invariant
            string_entries(v@) == m@.string_blks,
            i <= v@.len(),
            out@ == base + strings_text(string_entries(v@), i as nat),
        decreases v@.len() - i,
    {
        let off = v[i].0;
        let ghost before = out@;
        put_lit(out, &[32u8, 32, 91]);
        put_dec(out, i as u64 + 1);
        out.push(47);
        put_dec(out, off);
        put_lit(out, &[93u8, 32]);
        put_bytes(out, v[i].1.string().as_bytes());
        out.push(10);
        assert(string_entries(v@)[i as int] == (off, v@[i as int].1.string@));
        i = i + 1;
        assert(out@ =~= base + strings_text(string_entries(v@), i as nat));
    }
    assert(final(out)@ =~= old(out)@ + toc_line(*t, seq![115u8, 116, 114, 105, 110, 103, 115]) + strings_text(m@.string_blks, m@.string_blks.len()));
}

/// The instance part of a value line: `[id or "name"]` when the value
/// block names an instance block found in the file.
pub open spec fn inst_part(m: MMVView, io: Option<u64>) -> Seq<u8> {
    match io {
        Some(o) => match find(m.instance_blks, o) {
            Some(ib) => seq![91u8] + sdec(ib.internal_id as int) + seq![32u8, 111, 114, 32, 34] + name_text(m, ib.external_id) + seq![34u8, 93],
            None => Seq::empty(),
        },
        None => Seq::empty(),
    }
}

fn put_inst_part(out: &mut Vec<u8>, m: &MMV, io: Option<u64>)
    ensures
        final(out)@ == old(out)@ + inst_part(m@, io),
{
    match io {
        Some(o) => match find_instance(m.instance_blks(), o) {
            Some(ib) => {
                out.push(91);
                put_sdec(out, ib.internal_id as i64);
                put_lit(out, &[32u8, 111, 114, 32, 34]);
                put_name(out, m, &ib.external_id);
                put_lit(out, &[34u8, 93]);
                assert(final(out)@ =~= old(out)@ + inst_part(m@, io));
            },
            None => {
                assert(final(out)@ =~= old(out)@ + inst_part(m@, io));
            },
        },
        None => {
            assert(final(out)@ =~= old(out)@ + inst_part(m@, io));
        },
    }
}

/// An integer value as its metric's type reads it: signed for the signed
/// types, unsigned otherwise; a string metric without a string block says so.
pub open spec fn num_text(typ: u32, v: u64) -> Seq<u8> {
    if typ == 0 {
        sdec(((v as u32) as i32) as int)
    } else if typ == 2 {
        sdec((v as i64) as int)
    } else if typ == 6 {
        seq![40u8, 110, 111, 32, 115, 116, 114, 105, 110, 103, 32, 111, 102, 102, 115, 101, 116, 41]
    } else {
        dec(v as nat)
    }
}

/// The pieces of a value line after its head: the string, a float left to
/// the printer, or the integer.
pub open spec fn value_tail(m: MMVView, head: Seq<u8>, typ: u32, b: ValueBlk) -> Seq<PieceView> {
    match b.string_offset {
        Some(so) => seq![
            PieceView::Text(
                head + seq![34u8] + match str_at(m, so) {
                    Some(s) => encode_utf8(s),
                    None => Seq::empty(),
                } + seq![34u8, 10],
            ),
        ],
        None => if typ == 4 {
            seq![PieceView::Text(head), PieceView::F32(b.value as u32), PieceView::Text(seq![10u8])]
        } else if typ == 5 {
            seq![PieceView::Text(head), PieceView::F64(b.value), PieceView::Text(seq![10u8])]
        } else {
            seq![PieceView::Text(head + num_text(typ, b.value) + seq![10u8])]
        },
    }
}

/// The pieces of value block `b` at `off`: none unless it names a metric
/// block, found in the file, with a valid item.
pub open spec fn value_pieces(m: MMVView, off: u64, b: ValueBlk) -> Seq<PieceView> {
    match b.metric_offset {
        None => Seq::empty(),
        Some(mo) => match find(m.metric_blks, mo) {
            None => Seq::empty(),
            Some(mb) => match mb.item {
                None => Seq::empty(),
                Some(item) => value_tail(
                    m,
                    tag_text(item as nat, off as nat) + name_text(m, mb.name) + inst_part(m, b.instance_offset) + seq![
                        32u8,
                        61,
                        32,
                    ],
                    mb.typ,
                    b,
                ),
            },
        },
    }
}

/// The pieces of the first `n` value blocks.
pub open spec fn values_pieces(m: MMVView, n: nat) -> Seq<PieceView>
    decreases n,
{
    if n == 0 || n > m.value_blks.len() {
        Seq::empty()
    } else {
        values_pieces(m, (n - 1) as nat) + value_pieces(m, m.value_blks[n - 1].0, m.value_blks[n - 1].1)
    }
}

fn put_num(out: &mut Vec<u8>, typ: u32, v: u64)
    ensures
        final(out)@ == old(out)@ + num_text(typ, v),
{
    if typ == 0 {
        put_sdec(out, ((v as u32) as i32) as i64);
    } else if typ == 2 {
        put_sdec(out, v as i64);
    } else if typ == 6 {
        put_lit(out, &[40u8, 110, 111, 32, 115, 116, 114, 105, 110, 103, 32, 111, 102, 102, 115, 101, 116, 41]);
    } else {
        put_dec(out, v);
    }
}

fn put_value_tail(out: &mut Vec<Piece>, m: &MMV, head: Vec<u8>, typ: u32, b: &ValueBlk)
    ensures
        pieces(final(out)@) == pieces(old(out)@) + value_tail(m@, head@, typ, *b),
{
    let ghost h = head@;
    let ghost o = pieces(out@);
    let mut head = head;
    match b.string_offset {
        Some(so) => {
            head.push(34);
            match find_string(m.string_blks(), so) {
                Some(s) => put_bytes(&mut head, s.string().as_bytes()),
                None => {},
            }
            head.push(34);
            head.push(10);
            let ghost t = head@;
            assert(t =~= h + seq![34u8] + match str_at(m@, so) {
                Some(s) => encode_utf8(s),
                None => Seq::empty(),
            } + seq![34u8, 10]);
            push_piece(out, Piece::Text(head));
            assert(value_tail(m@, h, typ, *b) == seq![PieceView::Text(t)]);
            assert(pieces(out@) =~= o + seq![PieceView::Text(t)]);
        },
        None => {
            if typ == 4 {
                push_piece(out, Piece::Text(head));
                push_piece(out, Piece::F32(b.value as u32));
                let nl: Vec<u8> = vec![10u8];
                assert(nl@ =~= seq![10u8]);
                push_piece(out, Piece::Text(nl));
                assert(pieces(out@) =~= o + value_tail(m@, h, typ, *b));
            } else if typ == 5 {
                push_piece(out, Piece::Text(head));
                push_piece(out, Piece::F64(b.value));
                let nl: Vec<u8> = vec![10u8];
                assert(nl@ =~= seq![10u8]);
                push_piece(out, Piece::Text(nl));
                assert(pieces(out@) =~= o + value_tail(m@, h, typ, *b));
            } else {
                put_num(&mut head, typ, b.value);
                head.push(10);
                let ghost t = head@;
                push_piece(out, Piece::Text(head));
                assert(t =~= h + num_text(typ, b.value) + seq![10u8]);
                assert(pieces(out@) =~= o + value_tail(m@, h, typ, *b));
            }
        },
    }
}

fn put_value(out: &mut Vec<Piece>, m: &MMV, off: u64, b: &ValueBlk)
    ensures
        pieces(final(out)@) == pieces(old(out)@) + value_pieces(m@, off, *b),
{
    let mb = match b.metric_offset {
        Some(mo) => find_metric(m.metric_blks(), mo),
        None => None,
    };
    match mb {
        None => {
            assert(pieces(out@) =~= pieces(old(out)@) + value_pieces(m@, off, *b));
        },
        Some(mb) => match mb.item {
            None => {
                assert(pieces(out@) =~= pieces(old(out)@) + value_pieces(m@, off, *b));
            },
            Some(item) => {
                let mut head: Vec<u8> = Vec::new();
                put_tag(&mut head, item as u64, off);
                put_name(&mut head, m, &mb.name);
                put_inst_part(&mut head, m, b.instance_offset);
                put_lit(&mut head, &[32u8, 61, 32]);
                put_value_tail(out, m, head, mb.typ, b);
            },
        },
    }
}

fn put_values(out: &mut Vec<Piece>, m: &MMV)
    ensures
        pieces(final(out)@) == pieces(old(out)@) + values_pieces(m@, m@.value_blks.len()),
{
    let v = m.value_blks();
    let mut i: usize = 0;
    while i < v.len()
        invariant
            v@ == m@.value_blks,
            i <= v@.len(),
            pieces(out@) == pieces(old(out)@) + values_pieces(m@, i as nat),
        decreases v@.len() - i,
    {
        let ghost before = pieces(out@);
        put_value(out, m, v[i].0, &v[i].1);
        i = i + 1;
        assert(pieces(out@) =~= pieces(old(out)@) + values_pieces(m@, i as nat));
    }
}

/// The dump's header part.
pub open spec fn header_part(m: MMVView) -> Seq<PieceView> {
    seq![PieceView::Text(header_text(m.header) + seq![10u8])]
}

/// The dump's instance domain part, if the file has that section.
pub open spec fn indoms_part(m: MMVView) -> Seq<PieceView> {
    match m.indom_toc {
        Some(t) => seq![PieceView::Text(toc_line(t, seq![105u8, 110, 100, 111, 109, 115]) + lines_of(m.indom_blks, m.indom_blks.len(), indom_texts(m)) + seq![10u8])],
        None => Seq::empty(),
    }
}

/// The dump's instance part, if the file has that section.
pub open spec fn instances_part(m: MMVView) -> Seq<PieceView> {
    match m.instance_toc {
        Some(t) => seq![
            PieceView::Text(
                toc_line(t, seq![105u8, 110, 115, 116, 97, 110, 99, 101, 115]) + lines_of(m.instance_blks, m.instance_blks.len(), instance_texts(m)) + seq![10u8],
            ),
        ],
        None => Seq::empty(),
    }
}

/// The dump's metric part.
pub open spec fn metrics_part(m: MMVView) -> Seq<PieceView> {
    seq![
        PieceView::Text(
            toc_line(m.metric_toc, seq![109u8, 101, 116, 114, 105, 99, 115]) + lines_of(m.metric_blks, m.metric_blks.len(), metric_texts(m)) + seq![10u8],
        ),
    ]
}

/// The dump's value part.
pub open spec fn values_part(m: MMVView) -> Seq<PieceView> {
    seq![PieceView::Text(toc_line(m.value_toc, seq![118u8, 97, 108, 117, 101, 115]))] + values_pieces(m, m.value_blks.len()) + seq![
        PieceView::Text(seq![10u8]),
    ]
}

/// The dump's string part, if the file has that section.
pub open spec fn strings_part(m: MMVView) -> Seq<PieceView> {
    match m.string_toc {
        Some(t) => seq![PieceView::Text(toc_line(t, seq![115u8, 116, 114, 105, 110, 103, 115]) + strings_text(m.string_blks, m.string_blks.len()) + seq![10u8])],
        None => Seq::empty(),
    }
}

/// The whole dump of a parsed file: the header, then each section present
/// (instance domains, instances, metrics, values, strings), each followed
/// by an empty line.
pub open spec fn dump_pieces(m: MMVView) -> Seq<PieceView> {
    header_part(m) + indoms_part(m) + instances_part(m) + metrics_part(m) + values_part(m) + strings_part(m)
}

fn put_header_part(out: &mut Vec<Piece>, m: &MMV)
    ensures
        pieces(final(out)@) == pieces(old(out)@) + header_part(m@),
{
    let mut t: Vec<u8> = Vec::new();
    put_header(&mut t, m.header());
    t.push(10);
    let ghost tv = t@;
    push_piece(out, Piece::Text(t));
    assert(tv =~= header_text(m@.header) + seq![10u8]);
    assert(pieces(final(out)@) =~= pieces(old(out)@) + header_part(m@));
}

fn put_indoms_part(out: &mut Vec<Piece>, m: &MMV)
    ensures
        pieces(final(out)@) == pieces(old(out)@) + indoms_part(m@),
{
    match m.indom_toc() {
        Some(toc) => {
            let mut t: Vec<u8> = Vec::new();
            put_indoms(&mut t, m, toc);
            t.push(10);
            let ghost tv = t@;
            push_piece(out, Piece::Text(t));
            assert(tv =~= toc_line(*toc, seq![105u8, 110, 100, 111, 109, 115]) + lines_of(m@.indom_blks, m@.indom_blks.len(), indom_texts(m@)) + seq![10u8]);
            assert(pieces(final(out)@) =~= pieces(old(out)@) + indoms_part(m@));
        },
        None => {
            assert(pieces(final(out)@) =~= pieces(old(out)@) + indoms_part(m@));
        },
    }
}

fn put_instances_part(out: &mut Vec<Piece>, m: &MMV)
    ensures
        pieces(final(out)@) == pieces(old(out)@) + instances_part(m@),
{
    match m.instance_toc() {
        Some(toc) => {
            let mut t: Vec<u8> = Vec::new();
            put_instances(&mut t, m, toc);
            t.push(10);
            let ghost tv = t@;
            push_piece(out, Piece::Text(t));
            assert(tv =~= toc_line(*toc, seq![105u8, 110, 115, 116, 97, 110, 99, 101, 115]) + lines_of(m@.instance_blks, m@.instance_blks.len(), instance_texts(m@))
                + seq![10u8]);
            assert(pieces(final(out)@) =~= pieces(old(out)@) + instances_part(m@));
        },
        None => {
            assert(pieces(final(out)@) =~= pieces(old(out)@) + instances_part(m@));
        },
    }
}

fn put_metrics_part(out: &mut Vec<Piece>, m: &MMV)
    ensures
        pieces(final(out)@) == pieces(old(out)@) + metrics_part(m@),
{
    let mut t: Vec<u8> = Vec::new();
    put_metrics(&mut t, m, m.metric_toc());
    t.push(10);
    let ghost tv = t@;
    push_piece(out, Piece::Text(t));
    assert(tv =~= toc_line(m@.metric_toc, seq![109u8, 101, 116, 114, 105, 99, 115]) + lines_of(m@.metric_blks, m@.metric_blks.len(), metric_texts(m@)) + seq![10u8]);
    assert(pieces(final(out)@) =~= pieces(old(out)@) + metrics_part(m@));
}

fn put_values_part(out: &mut Vec<Piece>, m: &MMV)
    ensures
        pieces(final(out)@) == pieces(old(out)@) + values_part(m@),
{
    let mut t: Vec<u8> = Vec::new();
    put_toc_line(&mut t, m.value_toc(), &[118u8, 97, 108, 117, 101, 115]);
    let ghost tv = t@;
    push_piece(out, Piece::Text(t));
    put_values(out, m);
    let nl: Vec<u8> = vec![10u8];
    assert(nl@ =~= seq![10u8]);
    push_piece(out, Piece::Text(nl));
    assert(pieces(final(out)@) =~= pieces(old(out)@) + values_part(m@));
}

fn put_strings_part(out: &mut Vec<Piece>, m: &MMV)
    ensures
        pieces(final(out)@) == pieces(old(out)@) + strings_part(m@),
{
    match m.string_toc() {
        Some(toc) => {
            let mut t: Vec<u8> = Vec::new();
            put_strings(&mut t, m, toc);
            t.push(10);
            let ghost tv = t@;
            push_piece(out, Piece::Text(t));
            assert(tv =~= toc_line(*toc, seq![115u8, 116, 114, 105, 110, 103, 115]) + strings_text(m@.string_blks, m@.string_blks.len()) + seq![10u8]);
            assert(pieces(final(out)@) =~= pieces(old(out)@) + strings_part(m@));
        },
        None => {
            assert(pieces(final(out)@) =~= pieces(old(out)@) + strings_part(m@));
        },
    }
}

/// The dump of a parsed file, as pieces.
pub fn render(m: &MMV) -> (r: Vec<Piece>)
    ensures
        pieces(r@) == dump_pieces(m@),
{
    let mut out: Vec<Piece> = Vec::new();
    assert(pieces(out@) =~= Seq::<PieceView>::empty());
    put_header_part(&mut out, m);
    put_indoms_part(&mut out, m);
    put_instances_part(&mut out, m);
    put_metrics_part(&mut out, m);
    put_values_part(&mut out, m);
    put_strings_part(&mut out, m);
    assert(pieces(out@) =~= dump_pieces(m@));
    out
}

} // verus!
