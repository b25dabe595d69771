//! Units, scales and semantics of a metric, and their packed 32-bit form.
use vstd::prelude::*;
use crate::error::Error;

verus! {

/// Bit position of the space dimension nibble.
pub const SPACE_DIM_LSB: u32 = 28;
/// Bit position of the time dimension nibble.
pub const TIME_DIM_LSB: u32 = 24;
/// Bit position of the count dimension nibble.
pub const COUNT_DIM_LSB: u32 = 20;
/// Bit position of the space scale nibble.
pub const SPACE_SCALE_LSB: u32 = 16;
/// Bit position of the time scale nibble.
pub const TIME_SCALE_LSB: u32 = 12;
/// Bit position of the count scale nibble.
pub const COUNT_SCALE_LSB: u32 = 8;

/// The four bits of `w` starting at bit `lsb`.
pub open spec fn nibble(w: u32, lsb: u32) -> u32 {
    (w >> lsb) & 0xf
}

/// `w` with the four bits at `lsb` replaced by the low four bits of `v`.
pub open spec fn put_nibble(w: u32, lsb: u32, v: u32) -> u32 {
    (w & !(0xfu32 << lsb)) | ((v & 0xf) << lsb)
}

/// The four-bit two's complement form of a dimension in [-8, 7].
pub open spec fn dim_bits(d: int) -> u32 {
    (if d < 0 { d + 16 } else { d }) as u32
}

/// The dimension that a four-bit two's complement nibble stands for.
pub open spec fn signed4(n: u32) -> int {
    if n >= 8 { n - 16 } else { n as int }
}

/// A dimension that fits a signed nibble.
pub open spec fn dim_in_range(d: int) -> bool {
    -8 <= d <= 7
}

/// Replacing one nibble sets it and keeps every other nibble.
pub proof fn lemma_put_nibble(w: u32, lsb: u32, v: u32, other: u32)
    requires
        lsb % 4 == 0,
        lsb <= 28,
        other % 4 == 0,
        other <= 28,
        other != lsb,
    ensures
        nibble(put_nibble(w, lsb, v), lsb) == v & 0xf,
        nibble(put_nibble(w, lsb, v), other) == nibble(w, other),
{
    assert(((((w & !(0xfu32 << lsb)) | ((v & 0xf) << lsb)) >> lsb) & 0xf) == v & 0xf) by (bit_vector)
        requires
            lsb % 4 == 0,
            lsb <= 28,
    ;
    assert(((((w & !(0xfu32 << lsb)) | ((v & 0xf) << lsb)) >> other) & 0xf) == (w >> other) & 0xf)
        by (bit_vector)
        requires
            lsb % 4 == 0,
            lsb <= 28,
            other % 4 == 0,
            other <= 28,
            other != lsb,
    ;
}

/// A dimension survives the trip through its nibble.
pub proof fn lemma_dim_bits(d: int)
    requires
        dim_in_range(d),
    ensures
        dim_bits(d) < 16,
        dim_bits(d) & 0xf == dim_bits(d),
        signed4(dim_bits(d)) == d,
{
    let b = dim_bits(d);
    assert(b < 16 ==> b & 0xf == b) by (bit_vector);
}

/// Scale of the space component of a unit.
#[derive(PartialEq, Eq, Structural, Clone, Copy, Debug)]
pub enum Space {
    /// byte
    Byte,
    /// kibibyte
    KByte,
    /// mebibyte
    MByte,
    /// gibibyte
    GByte,
    /// tebibyte
    TByte,
    /// pebibyte
    PByte,
    /// exbibyte
    EByte,
}

impl Space {
    /// The scale's code in a packed unit.
    pub open spec fn spec_code(self) -> u32 {
        match self {
            Space::Byte => 0,
            Space::KByte => 1,
            Space::MByte => 2,
            Space::GByte => 3,
            Space::TByte => 4,
            Space::PByte => 5,
            Space::EByte => 6,
        }
    }

    /// The scale's code in a packed unit.
    pub fn code(self) -> (r: u32)
        ensures
            r == self.spec_code(),
    {
        match self {
            Space::Byte => 0,
            Space::KByte => 1,
            Space::MByte => 2,
            Space::GByte => 3,
            Space::TByte => 4,
            Space::PByte => 5,
            Space::EByte => 6,
        }
    }

    /// The scale with code `x`, if there is one.
    pub fn from_u8(x: u8) -> (r: Option<Space>)
        ensures
            r is Some <==> x < 7,
            r matches Some(s) ==> s.spec_code() == x,
    {
        match x {
            0 => Some(Space::Byte),
            1 => Some(Space::KByte),
            2 => Some(Space::MByte),
            3 => Some(Space::GByte),
            4 => Some(Space::TByte),
            5 => Some(Space::PByte),
            6 => Some(Space::EByte),
            _ => None,
        }
    }

    /// The scale's label in a dump.
    pub open spec fn spec_label(self) -> Seq<u8> {
        match self {
            Space::Byte => seq![66u8],
            Space::KByte => seq![75u8, 105, 66],
            Space::MByte => seq![77u8, 105, 66],
            Space::GByte => seq![71u8, 105, 66],
            Space::TByte => seq![84u8, 105, 66],
            Space::PByte => seq![80u8, 105, 66],
            Space::EByte => seq![69u8, 105, 66],
        }
    }

    /// The scale's label in a dump: `B`, `KiB`, ..., `EiB`.
    pub fn label(self) -> (r: Vec<u8>)
        ensures
            r@ == self.spec_label(),
    {
        let r = match self {
            Space::Byte => vec![66u8],
            Space::KByte => vec![75u8, 105u8, 66u8],
            Space::MByte => vec![77u8, 105u8, 66u8],
            Space::GByte => vec![71u8, 105u8, 66u8],
            Space::TByte => vec![84u8, 105u8, 66u8],
            Space::PByte => vec![80u8, 105u8, 66u8],
            Space::EByte => vec![69u8, 105u8, 66u8],
        };
        assert(r@ =~= self.spec_label());
        r
    }
}

/// Scale of the time component of a unit.
#[derive(PartialEq, Eq, Structural, Clone, Copy, Debug)]
pub enum Time {
    /// nanosecond
    NSec,
    /// microsecond
    USec,
    /// millisecond
    MSec,
    /// second
    Sec,
    /// minute
    Min,
    /// hour
    Hour,
}

impl Time {
    /// The scale's code in a packed unit.
    pub open spec fn spec_code(self) -> u32 {
        match self {
            Time::NSec => 0,
            Time::USec => 1,
            Time::MSec => 2,
            Time::Sec => 3,
            Time::Min => 4,
            Time::Hour => 5,
        }
    }

    /// The scale's code in a packed unit.
    pub fn code(self) -> (r: u32)
        ensures
            r == self.spec_code(),
    {
        match self {
            Time::NSec => 0,
            Time::USec => 1,
            Time::MSec => 2,
            Time::Sec => 3,
            Time::Min => 4,
            Time::Hour => 5,
        }
    }

    /// The scale with code `x`, if there is one.
    pub fn from_u8(x: u8) -> (r: Option<Time>)
        ensures
            r is Some <==> x < 6,
            r matches Some(s) ==> s.spec_code() == x,
    {
        match x {
            0 => Some(Time::NSec),
            1 => Some(Time::USec),
            2 => Some(Time::MSec),
            3 => Some(Time::Sec),
            4 => Some(Time::Min),
            5 => Some(Time::Hour),
            _ => None,
        }
    }

    /// The scale's label in a dump.
    pub open spec fn spec_label(self) -> Seq<u8> {
        match self {
            Time::NSec => seq![110u8, 115, 101, 99],
            Time::USec => seq![117u8, 115, 101, 99],
            Time::MSec => seq![109u8, 115, 101, 99],
            Time::Sec => seq![115u8, 101, 99],
            Time::Min => seq![109u8, 105, 110],
            Time::Hour => seq![104u8, 114],
        }
    }

    /// The scale's label in a dump: `nsec`, `usec`, `msec`, `sec`, `min`, `hr`.
    pub fn label(self) -> (r: Vec<u8>)
        ensures
            r@ == self.spec_label(),
    {
        let r = match self {
            Time::NSec => vec![110u8, 115u8, 101u8, 99u8],
            Time::USec => vec![117u8, 115u8, 101u8, 99u8],
            Time::MSec => vec![109u8, 115u8, 101u8, 99u8],
            Time::Sec => vec![115u8, 101u8, 99u8],
            Time::Min => vec![109u8, 105u8, 110u8],
            Time::Hour => vec![104u8, 114u8],
        };
        assert(r@ =~= self.spec_label());
        r
    }
}

/// Scale of the count component of a unit.
#[derive(PartialEq, Eq, Structural, Clone, Copy, Debug)]
pub enum Count {
    /// one
    One,
}

impl Count {
    /// The scale's code in a packed unit.
    pub open spec fn spec_code(self) -> u32 {
        0
    }

    /// The scale's code in a packed unit.
    pub fn code(self) -> (r: u32)
        ensures
            r == self.spec_code(),
    {
        0
    }

    /// The scale with code `x`, if there is one.
    pub fn from_u8(x: u8) -> (r: Option<Count>)
        ensures
            r is Some <==> x == 0,
    {
        match x {
            0 => Some(Count::One),
            _ => None,
        }
    }

    /// The scale's label in a dump.
    pub open spec fn spec_label(self) -> Seq<u8> {
        seq![99u8, 111, 117, 110, 116]
    }

    /// The scale's label in a dump: `count`.
    pub fn label(self) -> (r: Vec<u8>)
        ensures
            r@ == self.spec_label(),
    {
        let r = vec![99u8, 111u8, 117u8, 110u8, 116u8];
        assert(r@ =~= self.spec_label());
        r
    }
}

/// Unit of a metric, kept in its packed 32-bit form: from the most
/// significant nibble down, the space, time and count dimensions (signed),
/// then the space, time and count scales, then eight zero bits.
#[derive(PartialEq, Eq, Structural, Clone, Copy, Debug)]
pub struct Unit {
    pub pmapi_repr: u32,
}

impl Unit {
    /// The packed word.
    pub open spec fn word(self) -> u32 {
        self.pmapi_repr
    }

    /// The unit whose packed form is `pmapi_repr`.
    pub fn from_raw(pmapi_repr: u32) -> (r: Unit)
        ensures
            r.word() == pmapi_repr,
    {
        Unit { pmapi_repr }
    }

    /// The unit with every dimension 0 and every scale 0.
    pub fn new() -> (r: Unit)
        ensures
            r.word() == 0,
    {
        Unit::from_raw(0)
    }

    /// The packed word.
    pub fn pmapi_repr(&self) -> (r: u32)
        ensures
            r == self.word(),
    {
        self.pmapi_repr
    }

    fn with_component(self, dim_lsb: u32, scale_lsb: u32, scale: u32, dim: i8) -> (r: Result<Unit, Error>)
        requires
            dim_lsb % 4 == 0,
            dim_lsb <= 28,
            scale_lsb % 4 == 0,
            scale_lsb <= 28,
        ensures
            r is Ok <==> dim_in_range(dim as int),
            r matches Ok(u) ==> u.word() == put_nibble(
                put_nibble(self.word(), dim_lsb, dim_bits(dim as int)),
                scale_lsb,
                scale,
            ),
            r matches Err(e) ==> e == Error::DimensionOutOfRange(dim),
    {
        if dim > 7 || dim < -8 {
            return Err(Error::DimensionOutOfRange(dim));
        }
        let bits: u32 = if dim < 0 { (dim as i32 + 16) as u32 } else { dim as u32 };
        let w = (self.pmapi_repr & !(0xfu32 << dim_lsb)) | ((bits & 0xf) << dim_lsb);
        let w2 = (w & !(0xfu32 << scale_lsb)) | ((scale & 0xf) << scale_lsb);
        Ok(Unit { pmapi_repr: w2 })
    }

    /// The unit with its space scale and dimension set; the dimension must
    /// lie in [-8, 7].
    pub fn space(self, scale: Space, dim: i8) -> (r: Result<Unit, Error>)
        ensures
            r is Ok <==> dim_in_range(dim as int),
            r matches Ok(u) ==> u.word() == put_nibble(
                put_nibble(self.word(), SPACE_DIM_LSB, dim_bits(dim as int)),
                SPACE_SCALE_LSB,
                scale.spec_code(),
            ),
            r matches Err(e) ==> e == Error::DimensionOutOfRange(dim),
    {
        self.with_component(SPACE_DIM_LSB, SPACE_SCALE_LSB, scale.code(), dim)
    }

    /// The unit with its time scale and dimension set; the dimension must
    /// lie in [-8, 7].
    pub fn time(self, scale: Time, dim: i8) -> (r: Result<Unit, Error>)
        ensures
            r is Ok <==> dim_in_range(dim as int),
            r matches Ok(u) ==> u.word() == put_nibble(
                put_nibble(self.word(), TIME_DIM_LSB, dim_bits(dim as int)),
                TIME_SCALE_LSB,
                scale.spec_code(),
            ),
            r matches Err(e) ==> e == Error::DimensionOutOfRange(dim),
    {
        self.with_component(TIME_DIM_LSB, TIME_SCALE_LSB, scale.code(), dim)
    }

    /// The unit with its count scale and dimension set; the dimension must
    /// lie in [-8, 7].
    pub fn count(self, scale: Count, dim: i8) -> (r: Result<Unit, Error>)
        ensures
            r is Ok <==> dim_in_range(dim as int),
            r matches Ok(u) ==> u.word() == put_nibble(
                put_nibble(self.word(), COUNT_DIM_LSB, dim_bits(dim as int)),
                COUNT_SCALE_LSB,
                scale.spec_code(),
            ),
            r matches Err(e) ==> e == Error::DimensionOutOfRange(dim),
    {
        self.with_component(COUNT_DIM_LSB, COUNT_SCALE_LSB, scale.code(), dim)
    }

    fn field(&self, lsb: u32) -> (r: u8)
        requires
            lsb <= 28,
        ensures
            r as u32 == nibble(self.word(), lsb),
            r < 16,
    {
        let w = self.pmapi_repr;
        let n = (w >> lsb) & 0xf;
        assert(n < 16) by (bit_vector)
            requires
                n == (w >> lsb) & 0xf,
        ;
        n as u8
    }

    /// The space scale code.
    pub fn space_scale(&self) -> (r: u8)
        ensures
            r as u32 == nibble(self.word(), SPACE_SCALE_LSB),
            r < 16,
    {
        self.field(SPACE_SCALE_LSB)
    }

    /// The time scale code.
    pub fn time_scale(&self) -> (r: u8)
        ensures
            r as u32 == nibble(self.word(), TIME_SCALE_LSB),
            r < 16,
    {
        self.field(TIME_SCALE_LSB)
    }

    /// The count scale code.
    pub fn count_scale(&self) -> (r: u8)
        ensures
            r as u32 == nibble(self.word(), COUNT_SCALE_LSB),
            r < 16,
    {
        self.field(COUNT_SCALE_LSB)
    }

    /// The signed dimension stored in the nibble at `lsb`.
    pub fn dim(&self, lsb: u32) -> (r: i8)
        requires
            lsb <= 28,
        ensures
            r as int == signed4(nibble(self.word(), lsb)),
    {
        let n = self.field(lsb);
        if n >= 8 {
            (n as i8) - 16
        } else {
            n as i8
        }
    }

    /// The space dimension.
    pub fn space_dim(&self) -> (r: i8)
        ensures
            r as int == signed4(nibble(self.word(), SPACE_DIM_LSB)),
    {
        self.dim(SPACE_DIM_LSB)
    }

    /// The time dimension.
    pub fn time_dim(&self) -> (r: i8)
        ensures
            r as int == signed4(nibble(self.word(), TIME_DIM_LSB)),
    {
        self.dim(TIME_DIM_LSB)
    }

    /// The count dimension.
    pub fn count_dim(&self) -> (r: i8)
        ensures
            r as int == signed4(nibble(self.word(), COUNT_DIM_LSB)),
    {
        self.dim(COUNT_DIM_LSB)
    }
}

/// The word that `Unit::new()` followed by the space, time and count
/// builders leaves.
pub open spec fn unit_word(ss: u32, ts: u32, cs: u32, sd: int, td: int, cd: int) -> u32 {
    put_nibble(
        put_nibble(
            put_nibble(
                put_nibble(
                    put_nibble(put_nibble(0, SPACE_DIM_LSB, dim_bits(sd)), SPACE_SCALE_LSB, ss),
                    TIME_DIM_LSB,
                    dim_bits(td),
                ),
                TIME_SCALE_LSB,
                ts,
            ),
            COUNT_DIM_LSB,
            dim_bits(cd),
        ),
        COUNT_SCALE_LSB,
        cs,
    )
}

/// Packing three scales and three dimensions in [-8, 7] and reading them
/// back gives the same six values.
pub proof fn lemma_unit_round_trip(space: Space, time: Time, count: Count, sd: int, td: int, cd: int)
    requires
        dim_in_range(sd),
        dim_in_range(td),
        dim_in_range(cd),
    ensures
        ({
            let w = unit_word(space.spec_code(), time.spec_code(), count.spec_code(), sd, td, cd);
            &&& nibble(w, SPACE_SCALE_LSB) == space.spec_code()
            &&& nibble(w, TIME_SCALE_LSB) == time.spec_code()
            &&& nibble(w, COUNT_SCALE_LSB) == count.spec_code()
            &&& signed4(nibble(w, SPACE_DIM_LSB)) == sd
            &&& signed4(nibble(w, TIME_DIM_LSB)) == td
            &&& signed4(nibble(w, COUNT_DIM_LSB)) == cd
        }),
{
    let (ss, ts, cs) = (space.spec_code(), time.spec_code(), count.spec_code());
    let (a, b, c) = (dim_bits(sd), dim_bits(td), dim_bits(cd));
    lemma_dim_bits(sd);
    lemma_dim_bits(td);
    lemma_dim_bits(cd);
    let w0 = put_nibble(0, SPACE_DIM_LSB, a);
    let w1 = put_nibble(w0, SPACE_SCALE_LSB, ss);
    let w2 = put_nibble(w1, TIME_DIM_LSB, b);
    let w3 = put_nibble(w2, TIME_SCALE_LSB, ts);
    let w4 = put_nibble(w3, COUNT_DIM_LSB, c);
    let w5 = put_nibble(w4, COUNT_SCALE_LSB, cs);
    let lsbs = seq![SPACE_DIM_LSB, SPACE_SCALE_LSB, TIME_DIM_LSB, TIME_SCALE_LSB, COUNT_DIM_LSB, COUNT_SCALE_LSB];
    // each later write keeps what the earlier ones set
    lemma_put_nibble(0, SPACE_DIM_LSB, a, SPACE_SCALE_LSB);
    lemma_put_nibble(w0, SPACE_SCALE_LSB, ss, SPACE_DIM_LSB);
    lemma_put_nibble(w1, TIME_DIM_LSB, b, SPACE_DIM_LSB);
    lemma_put_nibble(w1, TIME_DIM_LSB, b, SPACE_SCALE_LSB);
    lemma_put_nibble(w2, TIME_SCALE_LSB, ts, SPACE_DIM_LSB);
    lemma_put_nibble(w2, TIME_SCALE_LSB, ts, SPACE_SCALE_LSB);
    lemma_put_nibble(w2, TIME_SCALE_LSB, ts, TIME_DIM_LSB);
    lemma_put_nibble(w3, COUNT_DIM_LSB, c, SPACE_DIM_LSB);
    lemma_put_nibble(w3, COUNT_DIM_LSB, c, SPACE_SCALE_LSB);
    lemma_put_nibble(w3, COUNT_DIM_LSB, c, TIME_DIM_LSB);
    lemma_put_nibble(w3, COUNT_DIM_LSB, c, TIME_SCALE_LSB);
    lemma_put_nibble(w4, COUNT_SCALE_LSB, cs, SPACE_DIM_LSB);
    lemma_put_nibble(w4, COUNT_SCALE_LSB, cs, SPACE_SCALE_LSB);
    lemma_put_nibble(w4, COUNT_SCALE_LSB, cs, TIME_DIM_LSB);
    lemma_put_nibble(w4, COUNT_SCALE_LSB, cs, TIME_SCALE_LSB);
    lemma_put_nibble(w4, COUNT_SCALE_LSB, cs, COUNT_DIM_LSB);
    assert(ss < 16 ==> ss & 0xf == ss) by (bit_vector);
    assert(ts < 16 ==> ts & 0xf == ts) by (bit_vector);
    assert(cs & 0xf == cs) by (bit_vector)
        requires
            cs == 0,
    ;
}

/// How a consumer reads successive samples of a metric.
#[derive(PartialEq, Eq, Structural, Clone, Copy, Debug)]
pub enum Semantics {
    /// a count that only grows
    Counter,
    /// a value at an instant
    Instant,
    /// a value that rarely changes
    Discrete,
}

impl Semantics {
    /// The code written in a metric block.
    pub open spec fn spec_code(self) -> u32 {
        match self {
            Semantics::Counter => 1,
            Semantics::Instant => 3,
            Semantics::Discrete => 4,
        }
    }

    /// The code written in a metric block.
    pub fn code(self) -> (r: u32)
        ensures
            r == self.spec_code(),
    {
        match self {
            Semantics::Counter => 1,
            Semantics::Instant => 3,
            Semantics::Discrete => 4,
        }
    }

    /// The semantics with code `x`, if there is one.
    pub fn from_u32(x: u32) -> (r: Option<Semantics>)
        ensures
            r is Some <==> (x == 1 || x == 3 || x == 4),
            r matches Some(s) ==> s.spec_code() == x,
    {
        match x {
            1 => Some(Semantics::Counter),
            3 => Some(Semantics::Instant),
            4 => Some(Semantics::Discrete),
            _ => None,
        }
    }
}

} // verus!
