use vstd::prelude::*;
use vstd::pervasive::VecAdditionalExecFns;

verus! {

/// A number as it was written: sign, integer digits, fraction digits and a decimal exponent.
/// Each digit is held as its value, from 0 to 9.
#[derive(Debug, Clone, PartialEq)]
pub struct JsonNumber {
    pub negative: bool,
    pub integer: Vec<u8>,
    pub fraction: Vec<u8>,
    pub exp_negative: bool,
    pub exponent: Vec<u8>,
}

/// The mathematical content of a `JsonNumber`.
pub struct NumberModel {
    pub negative: bool,
    pub integer: Seq<u8>,
    pub fraction: Seq<u8>,
    pub exp_negative: bool,
    pub exponent: Seq<u8>,
}

impl View for JsonNumber {
    type V = NumberModel;

    open spec fn view(&self) -> NumberModel {
        NumberModel {
            negative: self.negative,
            integer: self.integer@,
            fraction: self.fraction@,
            exp_negative: self.exp_negative,
            exponent: self.exponent@,
        }
    }
}

/// The natural number that a sequence of decimal digits denotes.
pub open spec fn digits_value(d: Seq<u8>) -> nat
    decreases d.len(),
{
    if d.len() == 0 {
        0
    } else {
        digits_value(d.drop_last()) * 10 + d.last() as nat
    }
}

impl NumberModel {
    /// All digits are decimal digits.
    pub open spec fn wf(self) -> bool {
        &&& forall|i: int| 0 <= i < self.integer.len() ==> self.integer[i] < 10
        &&& forall|i: int| 0 <= i < self.fraction.len() ==> self.fraction[i] < 10
        &&& forall|i: int| 0 <= i < self.exponent.len() ==> self.exponent[i] < 10
    }

    /// The signed number formed by all the mantissa digits, integer part then fraction part.
    pub open spec fn scaled_mantissa(self) -> int {
        let m = digits_value(self.integer + self.fraction) as int;
        if self.negative { -m } else { m }
    }

    /// The power of ten that the scaled mantissa is multiplied by.
    pub open spec fn scale(self) -> int {
        let e = digits_value(self.exponent) as int;
        (if self.exp_negative { -e } else { e }) - self.fraction.len()
    }
}

/// A parsed value.
/// `Absent` means that no value was found; `Error` carries a diagnostic for malformed input.
/// An object, `Data`, holds the names of its members and, at the same positions, their values;
/// the names are distinct.
#[derive(Debug, PartialEq)]
pub enum JsonData {
    Text(String),
    Data(Vec<String>, Vec<JsonData>),
    Arr(Vec<JsonData>),
    Num(JsonNumber),
    Bool(bool),
    Null,
    Absent,
    Error(String),
}

/// The mathematical content of a `JsonData`.
pub enum Value {
    Text(Seq<char>),
    Data(Seq<Seq<char>>, Seq<Value>),
    Arr(Seq<Value>),
    Num(NumberModel),
    Bool(bool),
    Null,
    Absent,
    Error(Seq<char>),
}

impl View for JsonData {
    type V = Value;

    open spec fn view(&self) -> Value
        decreases self,
    {
        match self {
            JsonData::Text(t) => Value::Text(t@),
            JsonData::Data(ks, vs) => Value::Data(
                names_view(ks@),
                Seq::new(
                    vs@.len(),
                    |i: int|
                        if 0 <= i < vs@.len() {
                            vs@[i].view()
                        } else {
                            Value::Absent
                        },
                ),
            ),
            JsonData::Arr(xs) => Value::Arr(
                Seq::new(
                    xs@.len(),
                    |i: int|
                        if 0 <= i < xs@.len() {
                            xs@[i].view()
                        } else {
                            Value::Absent
                        },
                ),
            ),
            JsonData::Num(n) => Value::Num(n@),
            JsonData::Bool(b) => Value::Bool(*b),
            JsonData::Null => Value::Null,
            JsonData::Absent => Value::Absent,
            JsonData::Error(m) => Value::Error(m@),
        }
    }
}

/// The position of the name `k`, if any.
pub open spec fn find_member(ks: Seq<Seq<char>>, k: Seq<char>) -> Option<int>
    decreases ks.len(),
{
    if ks.len() == 0 {
        None
    } else if ks[0] == k {
        Some(0)
    } else {
        match find_member(ks.drop_first(), k) {
            Some(i) => Some(i + 1),
            None => None,
        }
    }
}

/// Sets member `k` to `v`: the value is replaced in place when the name is present,
/// the member appended otherwise.
pub open spec fn put_member(ks: Seq<Seq<char>>, vs: Seq<Value>, k: Seq<char>, v: Value) -> (Seq<Seq<char>>, Seq<Value>) {
    match find_member(ks, k) {
        Some(i) => (ks, vs.update(i, v)),
        None => (ks.push(k), vs.push(v)),
    }
}

/// The values of a sequence of elements.
pub open spec fn items_view(xs: Seq<JsonData>) -> Seq<Value> {
    Seq::new(xs.len(), |i: int| xs[i]@)
}

/// The character sequences of a sequence of names.
pub open spec fn names_view(ks: Seq<String>) -> Seq<Seq<char>> {
    ks.map_values(|k: String| k@)
}

pub proof fn lemma_arr_view(xs: Vec<JsonData>)
    ensures
        JsonData::Arr(xs)@ == Value::Arr(items_view(xs@)),
{
    assert(JsonData::Arr(xs)@->Arr_0 =~= items_view(xs@));
}

pub proof fn lemma_data_view(ks: Vec<String>, vs: Vec<JsonData>)
    ensures
        JsonData::Data(ks, vs)@ == Value::Data(names_view(ks@), items_view(vs@)),
{
    assert(JsonData::Data(ks, vs)@->Data_1 =~= items_view(vs@));
}

/// `find_member` gives the first position that holds the name.
pub proof fn lemma_find_member(ks: Seq<Seq<char>>, k: Seq<char>)
    ensures
        match find_member(ks, k) {
            Some(i) => 0 <= i < ks.len() && ks[i] == k && forall|j: int| 0 <= j < i ==> ks[j] != k,
            None => forall|j: int| 0 <= j < ks.len() ==> ks[j] != k,
        },
    decreases ks.len(),
{
    if ks.len() > 0 {
        lemma_find_member(ks.drop_first(), k);
        assert forall|j: int| 1 <= j < ks.len() implies ks[j] == ks.drop_first()[j - 1] by {}
    }
}

/// Sets member `k` of the object with names `ks` and values `vs` to `v`.
pub fn put_member_in(ks: &mut Vec<String>, vs: &mut Vec<JsonData>, k: String, v: JsonData)
    requires
        old(ks)@.len() == old(vs)@.len(),
    ensures
        final(ks)@.len() == final(vs)@.len(),
        (names_view(final(ks)@), items_view(final(vs)@)) == put_member(
            names_view(old(ks)@),
            items_view(old(vs)@),
            k@,
            v@,
        ),
{
    let ghost m = names_view(ks@);
    let mut i: usize = 0;
    while i < ks.len()
        invariant
            i <= ks@.len(),
            *ks == *old(ks),
            *vs == *old(vs),
            ks@.len() == vs@.len(),
            m == names_view(ks@),
            forall|j: int| 0 <= j < i ==> m[j] != k@,
        decreases ks.len() - i,
    {
        if ks[i] == k {
            proof {
                assert(m[i as int] == k@);
                lemma_find_member(m, k@);
            }
            vs.set(i, v);
            proof {
                assert(items_view(vs@) =~= items_view(old(vs)@).update(i as int, v@));
            }
            return;
        }
        i = i + 1;
    }
    proof {
        lemma_find_member(m, k@);
    }
    ks.push(k);
    vs.push(v);
    proof {
        assert(names_view(ks@) =~= m.push(k@));
        assert(items_view(vs@) =~= items_view(old(vs)@).push(v@));
    }
}

/// Every object in the value has as many values as names and no name twice.
pub open spec fn well_formed(v: Value) -> bool
    decreases v,
{
    match v {
        Value::Data(ks, vs) => {
            &&& ks.no_duplicates()
            &&& ks.len() == vs.len()
            &&& forall|i: int| 0 <= i < vs.len() ==> well_formed(#[trigger] vs[i])
        },
        Value::Arr(xs) => forall|i: int| 0 <= i < xs.len() ==> well_formed(#[trigger] xs[i]),
        _ => true,
    }
}

pub open spec fn all_well_formed(xs: Seq<Value>) -> bool {
    forall|i: int| 0 <= i < xs.len() ==> well_formed(#[trigger] xs[i])
}

/// Setting a member keeps the names distinct and the values well formed.
pub proof fn lemma_put_member(ks: Seq<Seq<char>>, vs: Seq<Value>, k: Seq<char>, v: Value)
    requires
        ks.no_duplicates(),
        ks.len() == vs.len(),
        all_well_formed(vs),
        well_formed(v),
    ensures
        put_member(ks, vs, k, v).0.no_duplicates(),
        put_member(ks, vs, k, v).0.len() == put_member(ks, vs, k, v).1.len(),
        all_well_formed(put_member(ks, vs, k, v).1),
{
    lemma_find_member(ks, k);
    let r = put_member(ks, vs, k, v);
    match find_member(ks, k) {
        Some(i) => {
            assert forall|j: int| 0 <= j < r.1.len() implies well_formed(#[trigger] r.1[j]) by {
                if j != i {
                    assert(r.1[j] == vs[j]);
                }
            }
        },
        None => {
            assert forall|a: int, b: int| 0 <= a < r.0.len() && 0 <= b < r.0.len() && a != b
                implies r.0[a] != r.0[b] by {
                if a < ks.len() && b < ks.len() {
                    assert(r.0[a] == ks[a] && r.0[b] == ks[b]);
                }
            }
            assert forall|j: int| 0 <= j < r.1.len() implies well_formed(#[trigger] r.1[j]) by {
                if j < vs.len() {
                    assert(r.1[j] == vs[j]);
                }
            }
        },
    }
}

} // verus!
