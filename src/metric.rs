//! Declarations: singleton metrics, instance domains and instance metrics.
use vstd::prelude::*;
use vstd::utf8::encode_utf8;
use crate::bytes::copy_bytes;
use crate::codec::{byte_len, fit, fits_cell, fitted, type_of, Value, ValueView};
use crate::error::Error;
use crate::ident::{byte_parts, indom_id, indom_of, item_id, item_of, valid_indom, valid_item};
use crate::unit::{Semantics, Unit};

verus! {

/// Longest metric or instance name, in bytes.
pub const NAME_MAX_LEN: usize = 63;
/// Longest help text, in bytes.
pub const HELP_MAX_LEN: usize = 255;

/// UTF-8 byte length of a text.
pub open spec fn blen(s: Seq<char>) -> nat {
    encode_utf8(s).len()
}

/// What a singleton metric declares and holds.
pub struct MetricView {
    pub name: Seq<char>,
    pub item: u32,
    pub sem: Semantics,
    pub indom: u32,
    pub unit: u32,
    pub shorthelp: Seq<char>,
    pub longhelp: Seq<char>,
    pub val: ValueView,
}

/// A metric with one value.
pub struct Metric {
    name: String,
    item: u32,
    sem: Semantics,
    indom: u32,
    unit: u32,
    shorthelp: String,
    longhelp: String,
    val: Value,
}

impl View for Metric {
    type V = MetricView;

    closed spec fn view(&self) -> MetricView {
        MetricView {
            name: self.name@,
            item: self.item,
            sem: self.sem,
            indom: self.indom,
            unit: self.unit,
            shorthelp: self.shorthelp@,
            longhelp: self.longhelp@,
            val: self.val@,
        }
    }
}

/// The limits every declared metric keeps.
pub open spec fn metric_ok(m: MetricView) -> bool {
    &&& blen(m.name) <= 63
    &&& blen(m.shorthelp) <= 255
    &&& blen(m.longhelp) <= 255
    &&& valid_item(m.item)
    &&& (m.indom == 0 || valid_indom(m.indom))
    &&& fits_cell(m.val)
}

/// The error, if any, that declaring a metric with these texts and this
/// initial value meets first.
pub open spec fn metric_error(name: Seq<char>, shorthelp: Seq<char>, longhelp: Seq<char>) -> Option<Error> {
    if blen(name) > 63 {
        Some(Error::NameTooLong(blen(name) as u64))
    } else if blen(shorthelp) > 255 {
        Some(Error::HelpTooLong(blen(shorthelp) as u64))
    } else if blen(longhelp) > 255 {
        Some(Error::HelpTooLong(blen(longhelp) as u64))
    } else {
        None
    }
}

/// A copy of a text.
fn copy_text(s: &String) -> (r: String)
    ensures
        r@ == s@,
{
    s.clone()
}

impl Metric {
    #[verifier::type_invariant]
    spec fn inv(self) -> bool {
        metric_ok(self@)
    }

    /// Declares a metric named `name` with an initial value, semantics, unit
    /// and short and long help texts. The name may hold 63 bytes, each help
    /// text 255; a string value is cut to fit its 256-byte cell.
    pub fn new(name: &str, init_val: Value, sem: Semantics, unit: Unit, shorthelp_text: &str, longhelp_text: &str) -> (r:
        Result<Metric, Error>)
        ensures
            metric_error(name@, shorthelp_text@, longhelp_text@) matches Some(e) ==> r == Err::<
                Metric,
                Error,
            >(e),
            metric_error(name@, shorthelp_text@, longhelp_text@) is None ==> (r matches Ok(m) && m@
                == (MetricView {
                name: name@,
                item: item_of(encode_utf8(name@)),
                sem,
                indom: 0,
                unit: unit.word(),
                shorthelp: shorthelp_text@,
                longhelp: longhelp_text@,
                val: m@.val,
            }) && fitted(init_val@, m@.val)),
    {
        let name_len = byte_len(name);
        if name_len > NAME_MAX_LEN {
            return Err(Error::NameTooLong(name_len as u64));
        }
        let short_len = byte_len(shorthelp_text);
        if short_len > HELP_MAX_LEN {
            return Err(Error::HelpTooLong(short_len as u64));
        }
        let long_len = byte_len(longhelp_text);
        if long_len > HELP_MAX_LEN {
            return Err(Error::HelpTooLong(long_len as u64));
        }
        let init_val = fit(init_val);
        let item = item_id(name.as_bytes());
        Ok(Metric {
            name: name.to_owned(),
            item,
            sem,
            indom: 0,
            unit: unit.pmapi_repr(),
            shorthelp: shorthelp_text.to_owned(),
            longhelp: longhelp_text.to_owned(),
            val: init_val,
        })
    }

    /// The metric's current value.
    pub fn val(&self) -> (r: Value)
        ensures
            r@ == self@.val,
    {
        self.val.duplicate()
    }

    /// Replaces the value, a string cut to fit its cell. The new value must
    /// have the metric's type; else nothing changes.
    pub fn set_val(&mut self, new_val: Value) -> (r: Result<(), Error>)
        ensures
            type_of(new_val@) != type_of(old(self)@.val) ==> r == Err::<(), Error>(
                Error::TypeMismatch(type_of(new_val@)),
            ) && final(self)@ == old(self)@,
            type_of(new_val@) == type_of(old(self)@.val) ==> r is Ok && final(self)@ == (MetricView {
                val: final(self)@.val,
                ..old(self)@
            }) && fitted(new_val@, final(self)@.val),
    {
        let t = new_val.type_code();
        if t != self.val.type_code() {
            return Err(Error::TypeMismatch(t));
        }
        let new_val = fit(new_val);
        proof { use_type_invariant(&*self); }
        self.val = new_val;
        Ok(())
    }

    /// The bytes of the metric's value cell.
    pub fn cell_bytes(&self) -> (r: Vec<u8>)
        ensures
            r@ == crate::codec::cell_of(self@.val),
    {
        crate::codec::encode(&self.val)
    }

    pub fn name(&self) -> (r: &str)
        ensures
            r@ == self@.name,
    {
        self.name.as_str()
    }

    pub fn item(&self) -> (r: u32)
        ensures
            r == self@.item,
            metric_ok(self@),
    {
        proof {
            use_type_invariant(self);
        }
        self.item
    }

    pub fn type_code(&self) -> (r: u32)
        ensures
            r == type_of(self@.val),
    {
        self.val.type_code()
    }

    pub fn sem(&self) -> (r: Semantics)
        ensures
            r == self@.sem,
    {
        self.sem
    }

    pub fn unit(&self) -> (r: u32)
        ensures
            r == self@.unit,
    {
        self.unit
    }

    pub fn indom(&self) -> (r: u32)
        ensures
            r == self@.indom,
    {
        self.indom
    }

    pub fn shorthelp(&self) -> (r: &str)
        ensures
            r@ == self@.shorthelp,
    {
        self.shorthelp.as_str()
    }

    pub fn longhelp(&self) -> (r: &str)
        ensures
            r@ == self@.longhelp,
    {
        self.longhelp.as_str()
    }

}

/// The sequence with each element's later repeats left out.
pub open spec fn dedup(s: Seq<Seq<char>>) -> Seq<Seq<char>>
    decreases s.len(),
{
    if s.len() == 0 {
        s
    } else {
        let d = dedup(s.drop_last());
        if d.contains(s.last()) {
            d
        } else {
            d.push(s.last())
        }
    }
}

/// The characters of each string.
pub open spec fn texts(v: Seq<String>) -> Seq<Seq<char>> {
    v.map_values(|s: String| s@)
}

/// No two elements alike.
pub open spec fn distinct(s: Seq<Seq<char>>) -> bool {
    forall|i: int, j: int| 0 <= i < j < s.len() ==> s[i] != s[j]
}

/// The UTF-8 bytes of each text.
pub open spec fn bytes_of_all(s: Seq<Seq<char>>) -> Seq<Seq<u8>> {
    s.map_values(|t: Seq<char>| encode_utf8(t))
}

/// What an instance domain declares.
pub struct IndomView {
    pub instances: Seq<Seq<char>>,
    pub id: u32,
    pub shorthelp: Seq<char>,
    pub longhelp: Seq<char>,
}

/// The limits every instance domain keeps.
pub open spec fn indom_ok(d: IndomView) -> bool {
    &&& distinct(d.instances)
    &&& forall|i: int| 0 <= i < d.instances.len() ==> blen(#[trigger] d.instances[i]) <= 63
    &&& d.instances.len() <= u32::MAX
    &&& blen(d.shorthelp) <= 255
    &&& blen(d.longhelp) <= 255
    &&& valid_indom(d.id)
}

/// A named set of instances shared by instance metrics.
pub struct Indom {
    instances: Vec<String>,
    id: u32,
    shorthelp: String,
    longhelp: String,
}

impl View for Indom {
    type V = IndomView;

    closed spec fn view(&self) -> IndomView {
        IndomView {
            instances: texts(self.instances@),
            id: self.id,
            shorthelp: self.shorthelp@,
            longhelp: self.longhelp@,
        }
    }
}

/// Index of `x` in `s`, if it is there.
fn find_text(s: &Vec<String>, x: &String) -> (r: Option<usize>)
    ensures
        r matches Some(i) ==> i < s@.len() && s@[i as int]@ == x@,
        r is None ==> !texts(s@).contains(x@),
{
    let mut i: usize = 0;
    while i < s.len()
        invariant
            i <= s@.len(),
            forall|j: int| 0 <= j < i ==> s@[j]@ != x@,
        decreases s@.len() - i,
    {
        if s[i] == *x {
            return Some(i);
        }
        i = i + 1;
    }
    proof {
        if texts(s@).contains(x@) {
            let m = texts(s@);
            let k = choose|k: int| 0 <= k < m.len() && #[trigger] m[k] == x@;
            assert(s@[k]@ == x@);
        }
    }
    None
}

/// Lemma: a sequence without repeats stays so when an absent element is added.
proof fn lemma_distinct_push(d: Seq<Seq<char>>, x: Seq<char>)
    requires
        distinct(d),
        !d.contains(x),
    ensures
        distinct(d.push(x)),
{
    assert forall|i: int, j: int| 0 <= i < j < d.push(x).len() implies d.push(x)[i] != d.push(x)[j] by {
        if j == d.len() {
            assert(d.push(x)[i] == d[i]);
        }
    }
}

impl Indom {
    #[verifier::type_invariant]
    spec fn inv(self) -> bool {
        &&& indom_ok(self@)
        &&& self.id == indom_of(bytes_of_all(self@.instances))
    }

    /// Declares an instance domain with these instances (a repeat counts
    /// once) and short and long help texts. Each instance name may hold 63
    /// bytes, each help text 255.
    pub fn new(instances: &[&str], shorthelp_text: &str, longhelp_text: &str) -> (r: Result<Indom, Error>)
        requires
            instances@.len() <= u32::MAX,
        ensures
            r is Ok <==> (forall|i: int| 0 <= i < instances@.len() ==> blen(#[trigger] instances@[i]@) <= 63)
                && blen(shorthelp_text@) <= 255 && blen(longhelp_text@) <= 255,
            r matches Err(e) ==> (exists|i: int|
                0 <= i < instances@.len() && e == Error::InstanceTooLong(blen(#[trigger] instances@[i]@) as u64)
                    && blen(instances@[i]@) > 63) || (e == Error::HelpTooLong(blen(shorthelp_text@) as u64)
                && blen(shorthelp_text@) > 255) || (e == Error::HelpTooLong(blen(longhelp_text@) as u64) && blen(
                longhelp_text@,
            ) > 255),
            r matches Ok(d) ==> d@.instances == dedup(instances@.map_values(|s: &str| s@)) && d@.id == indom_of(
                bytes_of_all(d@.instances),
            ) && d@.shorthelp == shorthelp_text@ && d@.longhelp == longhelp_text@,
    {
        let ghost input = instances@.map_values(|s: &str| s@);
        let mut names: Vec<String> = Vec::new();
        let mut i: usize = 0;
        while i < instances.len()
            invariant
                i <= instances@.len(),
                input == instances@.map_values(|s: &str| s@),
                forall|j: int| 0 <= j < i ==> blen(#[trigger] instances@[j]@) <= 63,
                texts(names@) == dedup(input.take(i as int)),
                distinct(texts(names@)),
                names@.len() <= i,
            decreases instances@.len() - i,
        {
            let inst = instances[i];
            let n = byte_len(inst);
            if n > NAME_MAX_LEN {
                return Err(Error::InstanceTooLong(n as u64));
            }
            let owned = inst.to_owned();
            let ghost before = texts(names@);
            assert(input.take(i + 1).drop_last() =~= input.take(i as int));
            assert(input.take(i + 1).last() == owned@);
            let found = find_text(&names, &owned);
            if found.is_none() {
                names.push(owned);
                proof {
                    lemma_distinct_push(before, owned@);
                    assert(texts(names@) =~= before.push(owned@));
                }
            } else {
                proof {
                    let j = found.unwrap() as int;
                    assert(before[j] == owned@);
                    assert(before.contains(owned@));
                }
            }
            i = i + 1;
        }
        assert(input.take(instances@.len() as int) =~= input);
        let short_len = byte_len(shorthelp_text);
        if short_len > HELP_MAX_LEN {
            return Err(Error::HelpTooLong(short_len as u64));
        }
        let long_len = byte_len(longhelp_text);
        if long_len > HELP_MAX_LEN {
            return Err(Error::HelpTooLong(long_len as u64));
        }
        let mut parts: Vec<Vec<u8>> = Vec::new();
        let mut k: usize = 0;
        while k < names.len()
            invariant
                k <= names@.len(),
                parts@.len() == k,
                forall|j: int| 0 <= j < k ==> #[trigger] parts@[j]@ == encode_utf8(names@[j]@),
            decreases names@.len() - k,
        {
            let b = names[k].as_str().as_bytes();
            let c = copy_bytes(b, 0, b.len());
            assert(b@.subrange(0, b@.len() as int) =~= b@);
            parts.push(c);
            k = k + 1;
        }
        assert(byte_parts(parts@) =~= bytes_of_all(texts(names@)));
        let id = indom_id(&parts);
        proof {
            let v = texts(names@);
            assert forall|j: int| 0 <= j < v.len() implies blen(#[trigger] v[j]) <= 63 by {
                lemma_dedup_from(input, v[j]);
            }
        }
        Ok(Indom { instances: names, id, shorthelp: shorthelp_text.to_owned(), longhelp: longhelp_text.to_owned() })
    }

    /// Number of instances.
    pub fn instance_count(&self) -> (r: u32)
        ensures
            r == self@.instances.len(),
    {
        proof {
            use_type_invariant(self);
        }
        self.instances.len() as u32
    }

    /// Whether `instance` is one of the domain's instances.
    pub fn has_instance(&self, instance: &str) -> (r: bool)
        ensures
            r == self@.instances.contains(instance@),
    {
        let x = instance.to_owned();
        let r = find_text(&self.instances, &x);
        proof {
            if let Some(i) = r {
                assert(self@.instances[i as int] == instance@);
            }
        }
        r.is_some()
    }

    /// Index of `instance` among the domain's instances.
    pub fn position(&self, instance: &str) -> (r: Option<usize>)
        ensures
            r matches Some(i) ==> i < self@.instances.len() && self@.instances[i as int] == instance@,
            r is None ==> !self@.instances.contains(instance@),
    {
        let x = instance.to_owned();
        find_text(&self.instances, &x)
    }

    /// The instance at `i`.
    pub fn instance(&self, i: usize) -> (r: &str)
        requires
            i < self@.instances.len(),
        ensures
            r@ == self@.instances[i as int],
    {
        self.instances[i].as_str()
    }

    /// The domain's id.
    pub fn id(&self) -> (r: u32)
        ensures
            r == self@.id,
            indom_ok(self@),
            r == indom_of(bytes_of_all(self@.instances)),
    {
        proof {
            use_type_invariant(self);
        }
        self.id
    }

    pub fn shorthelp(&self) -> (r: &str)
        ensures
            r@ == self@.shorthelp,
    {
        self.shorthelp.as_str()
    }

    pub fn longhelp(&self) -> (r: &str)
        ensures
            r@ == self@.longhelp,
    {
        self.longhelp.as_str()
    }

    /// A copy of the domain.
    pub fn duplicate(&self) -> (r: Indom)
        ensures
            r@ == self@,
    {
        proof {
            use_type_invariant(self);
        }
        let mut v: Vec<String> = Vec::new();
        let mut i: usize = 0;
        while i < self.instances.len()
            invariant
                i <= self.instances@.len(),
                v@.len() == i,
                forall|j: int| 0 <= j < i ==> #[trigger] v@[j]@ == self.instances@[j]@,
            decreases self.instances@.len() - i,
        {
            let t = copy_text(&self.instances[i]);
            v.push(t);
            i = i + 1;
        }
        assert(texts(v@) =~= texts(self.instances@));
        Indom {
            instances: v,
            id: self.id,
            shorthelp: copy_text(&self.shorthelp),
            longhelp: copy_text(&self.longhelp),
        }
    }
}

/// Lemma: every element of `dedup(s)` is an element of `s`.
proof fn lemma_dedup_from(s: Seq<Seq<char>>, x: Seq<char>)
    requires
        dedup(s).contains(x),
    ensures
        s.contains(x),
    decreases s.len(),
{
    if s.len() > 0 {
        let d = dedup(s.drop_last());
        if d.contains(x) {
            lemma_dedup_from(s.drop_last(), x);
            let k = choose|k: int| 0 <= k < s.drop_last().len() && #[trigger] s.drop_last()[k] == x;
            assert(s[k] == x);
        } else {
            assert(x == s.last());
            assert(s[s.len() - 1] == x);
        }
    }
}

/// What an instance metric declares and holds.
pub struct InstanceMetricView {
    pub indom: IndomView,
    pub vals: Seq<ValueView>,
    pub metric: MetricView,
}

/// The limits every instance metric keeps: a value per instance, each of
/// the template's type and fitting its cell, and the template citing the
/// domain.
pub open spec fn instance_metric_ok(m: InstanceMetricView) -> bool {
    &&& indom_ok(m.indom)
    &&& metric_ok(m.metric)
    &&& m.vals.len() == m.indom.instances.len()
    &&& m.metric.indom == m.indom.id
    &&& forall|i: int|
        0 <= i < m.vals.len() ==> type_of(#[trigger] m.vals[i]) == type_of(m.metric.val) && fits_cell(m.vals[i])
}

/// A metric with one value per instance of a domain; all instances share
/// the type, semantics and unit.
pub struct InstanceMetric {
    indom: Indom,
    vals: Vec<Value>,
    metric: Metric,
}

impl View for InstanceMetric {
    type V = InstanceMetricView;

    closed spec fn view(&self) -> InstanceMetricView {
        InstanceMetricView {
            indom: self.indom@,
            vals: self.vals@.map_values(|v: Value| v@),
            metric: self.metric@,
        }
    }
}

impl InstanceMetric {
    #[verifier::type_invariant]
    spec fn inv(self) -> bool {
        instance_metric_ok(self@)
    }

    /// Declares a metric over the instances of `indom`, each starting at
    /// `init_val`; the limits of `Metric::new` hold for the texts.
    pub fn new(
        indom: &Indom,
        name: &str,
        init_val: Value,
        sem: Semantics,
        unit: Unit,
        shorthelp_text: &str,
        longhelp_text: &str,
    ) -> (r: Result<InstanceMetric, Error>)
        ensures
            metric_error(name@, shorthelp_text@, longhelp_text@) matches Some(e) ==> r == Err::<
                InstanceMetric,
                Error,
            >(e),
            metric_error(name@, shorthelp_text@, longhelp_text@) is None ==> (r matches Ok(m) && m@
                == (InstanceMetricView {
                indom: indom@,
                vals: Seq::new(indom@.instances.len(), |i: int| m@.metric.val),
                metric: MetricView {
                    name: name@,
                    item: item_of(encode_utf8(name@)),
                    sem,
                    indom: indom@.id,
                    unit: unit.word(),
                    shorthelp: shorthelp_text@,
                    longhelp: longhelp_text@,
                    val: m@.metric.val,
                },
            }) && fitted(init_val@, m@.metric.val)),
    {
        let init_val = fit(init_val);
        let n = indom.instance_count() as usize;
        let id = indom.id();
        let mut vals: Vec<Value> = Vec::new();
        let mut i: usize = 0;
        while i < n
            invariant
                i <= n,
                vals@.len() == i,
                forall|j: int| 0 <= j < i ==> (#[trigger] vals@[j])@ == init_val@,
            decreases n - i,
        {
            vals.push(init_val.duplicate());
            i = i + 1;
        }
        let m = Metric::new(name, init_val, sem, unit, shorthelp_text, longhelp_text);
        match m {
            Err(e) => Err(e),
            Ok(m) => {
                proof {
                    use_type_invariant(&m);
                    crate::codec::lemma_fitted_keeps(init_val@, m@.val);
                }
                let Metric { name, item, sem, indom: _, unit, shorthelp, longhelp, val } = m;
                let metric = Metric { name, item, sem, indom: id, unit, shorthelp, longhelp, val };
                let r = InstanceMetric { indom: indom.duplicate(), vals, metric };
                assert(r@.vals =~= Seq::new(indom@.instances.len(), |i: int| r@.metric.val));
                Ok(r)
            },
        }
    }

    /// Number of instances.
    pub fn instance_count(&self) -> (r: u32)
        ensures
            r == self@.indom.instances.len(),
    {
        self.indom.instance_count()
    }

    /// Whether `instance` is one of the metric's instances.
    pub fn has_instance(&self, instance: &str) -> (r: bool)
        ensures
            r == self@.indom.instances.contains(instance@),
    {
        self.indom.has_instance(instance)
    }

    /// The value of `instance`, or `None` if the metric has no such instance.
    pub fn val(&self, instance: &str) -> (r: Option<Value>)
        ensures
            r is Some <==> self@.indom.instances.contains(instance@),
            r matches Some(v) ==> exists|i: int|
                0 <= i < self@.vals.len() && self@.indom.instances[i] == instance@ && v@ == #[trigger] self@.vals[i],
    {
        proof {
            use_type_invariant(self);
        }
        match self.indom.position(instance) {
            None => None,
            Some(i) => {
                let v = self.vals[i].duplicate();
                assert(self@.vals[i as int] == v@);
                Some(v)
            },
        }
    }

    /// Sets the value of `instance`: `None` if the metric has no such
    /// instance; else as `Metric::set_val`.
    pub fn set_val(&mut self, instance: &str, new_val: Value) -> (r: Option<Result<(), Error>>)
        ensures
            r is None <==> !old(self)@.indom.instances.contains(instance@),
            r is None ==> final(self)@ == old(self)@,
            r matches Some(Err(e)) ==> final(self)@ == old(self)@ && type_of(new_val@) != type_of(old(self)@.metric.val)
                && e == Error::TypeMismatch(type_of(new_val@)),
            r matches Some(Ok(())) ==> type_of(new_val@) == type_of(old(self)@.metric.val) && exists|i: int, v: ValueView|
                0 <= i < old(self)@.vals.len() && old(self)@.indom.instances[i] == instance@ && fitted(new_val@, v)
                    && final(self)@ == (InstanceMetricView { vals: old(self)@.vals.update(i, v), ..old(self)@ }),
            type_of(new_val@) == type_of(old(self)@.metric.val) && r is Some ==> r matches Some(Ok(())),
    {
        proof {
            use_type_invariant(&*self);
        }
        match self.indom.position(instance) {
            None => None,
            Some(i) => {
                let t = new_val.type_code();
                if t != self.metric.type_code() {
                    return Some(Err(Error::TypeMismatch(t)));
                }
                let ghost given = new_val@;
                let new_val = fit(new_val);
                let ghost nv = new_val@;
                let ghost target = old(self)@.vals.update(i as int, nv);
                let mut vals: Vec<Value> = Vec::new();
                let mut new_val = Some(new_val);
                let mut k: usize = 0;
                while k < self.vals.len()
                    invariant
                        k <= self.vals@.len(),
                        self@ == old(self)@,
                        i < self.vals@.len(),
                        target == old(self)@.vals.update(i as int, nv),
                        vals@.len() == k,
                        forall|j: int| 0 <= j < k ==> (#[trigger] vals@[j])@ == target[j],
                        k <= i ==> (new_val matches Some(v) && v@ == nv),
                    decreases self.vals@.len() - k,
                {
                    if k == i {
                        match new_val.take() {
                            Some(v) => vals.push(v),
                            None => vals.push(self.vals[k].duplicate()),
                        }
                    } else {
                        vals.push(self.vals[k].duplicate());
                    }
                    k = k + 1;
                }
                self.vals = vals;
                assert(self@.vals =~= target);
                assert(fitted(given, nv));
                Some(Ok(()))
            },
        }
    }

    /// The bytes of the value cell of the instance at `i`.
    pub fn cell_bytes(&self, i: usize) -> (r: Vec<u8>)
        requires
            i < self@.vals.len(),
        ensures
            r@ == crate::codec::cell_of(self@.vals[i as int]),
    {
        crate::codec::encode(&self.vals[i])
    }

    /// The value of the instance at `i`.
    pub fn val_at(&self, i: usize) -> (r: Value)
        requires
            i < self@.vals.len(),
        ensures
            r@ == self@.vals[i as int],
    {
        self.vals[i].duplicate()
    }

    /// The instance domain.
    pub fn indom(&self) -> (r: &Indom)
        ensures
            r@ == self@.indom,
    {
        &self.indom
    }

    /// The template metric: name, item, type, semantics, unit and help.
    pub fn metric(&self) -> (r: &Metric)
        ensures
            r@ == self@.metric,
            instance_metric_ok(self@),
    {
        proof {
            use_type_invariant(self);
        }
        &self.metric
    }

    pub fn name(&self) -> (r: &str)
        ensures
            r@ == self@.metric.name,
    {
        self.metric.name()
    }

    pub fn sem(&self) -> (r: Semantics)
        ensures
            r == self@.metric.sem,
    {
        self.metric.sem()
    }

    pub fn unit(&self) -> (r: u32)
        ensures
            r == self@.metric.unit,
    {
        self.metric.unit()
    }

    pub fn shorthelp(&self) -> (r: &str)
        ensures
            r@ == self@.metric.shorthelp,
    {
        self.metric.shorthelp()
    }

    pub fn longhelp(&self) -> (r: &str)
        ensures
            r@ == self@.metric.longhelp,
    {
        self.metric.longhelp()
    }
}

} // verus!
