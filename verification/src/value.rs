//! Records and the values their fields hold.
//!
//! A record is an ordered list of named fields.  A field holds either an
//! integer or a nested record; a tuple is represented as a nested record
//! whose fields carry positional names.  A well-formed record names each of
//! its fields exactly once, at every nesting depth.
//!
//! The executable types `Value`, `Field` and `Record` are mirrored by the
//! mathematical model `SpecValue` / `SpecField`, reached through `@`; every
//! contract in the crate speaks over that model.

use vstd::prelude::*;

verus! {

/// A field value: an integer, or a nested record (tuples are records with
/// positional field names).
#[derive(Debug, PartialEq)]
pub enum Value {
    Int(i64),
    Rec(Record),
}

/// One named field of a record.
#[derive(Debug, PartialEq)]
pub struct Field {
    pub name: u64,
    pub value: Value,
}

/// A record: a fixed, ordered set of named fields.
#[derive(Debug, PartialEq)]
pub struct Record {
    pub fields: Vec<Field>,
}

/// The mathematical model of a value.
pub enum SpecValue {
    Int(int),
    Rec(Seq<SpecField>),
}

/// The mathematical model of one named field.
pub struct SpecField {
    pub name: u64,
    pub value: SpecValue,
}

/// The model of a value.
pub open spec fn value_view(v: Value) -> SpecValue
    decreases v, 0int,
{
    match v {
        Value::Int(n) => SpecValue::Int(n as int),
        Value::Rec(r) => SpecValue::Rec(record_view(r.fields@)),
    }
}

/// The model of a field list: each field keeps its name, its value is
/// modelled in turn.
pub open spec fn record_view(fs: Seq<Field>) -> Seq<SpecField>
    decreases fs, 1int,
{
    Seq::new(
        fs.len(),
        |i: int|
            if 0 <= i < fs.len() {
                SpecField { name: fs[i].name, value: value_view(fs[i].value) }
            } else {
                SpecField { name: 0, value: SpecValue::Int(0) }
            },
    )
}

impl View for Value {
    type V = SpecValue;

    open spec fn view(&self) -> SpecValue {
        value_view(*self)
    }
}

impl View for Record {
    type V = Seq<SpecField>;

    open spec fn view(&self) -> Seq<SpecField> {
        record_view(self.fields@)
    }
}

/// Whether the field list has a field named `n`.
pub open spec fn has_field(fs: Seq<SpecField>, n: u64) -> bool {
    exists|i: int| 0 <= i < fs.len() && fs[i].name == n
}

/// The index of a field named `n` (unique when the record is well formed).
pub open spec fn field_at(fs: Seq<SpecField>, n: u64) -> int {
    choose|i: int| 0 <= i < fs.len() && fs[i].name == n
}

/// The value of the field named `n`.
pub open spec fn field_value(fs: Seq<SpecField>, n: u64) -> SpecValue {
    fs[field_at(fs, n)].value
}

/// Well-formedness of a value: every record reachable from it names each
/// field exactly once.
pub open spec fn spec_value_wf(v: SpecValue) -> bool
    decreases v, 0int,
{
    match v {
        SpecValue::Int(_) => true,
        SpecValue::Rec(fs) => spec_record_wf(fs),
    }
}

/// Well-formedness of a field list: names are distinct, and every nested
/// record is well formed in turn.
pub open spec fn spec_record_wf(fs: Seq<SpecField>) -> bool
    decreases fs, 1int,
{
    &&& forall|i: int, j: int| 0 <= i < j < fs.len() ==> fs[i].name != fs[j].name
    &&& forall|i: int| 0 <= i < fs.len() ==> spec_value_wf(#[trigger] fs[i].value)
}

/// In a well-formed field list, any two indices holding the same name
/// coincide, so `field_at` is the one index of that name.
pub proof fn lemma_field_at_unique(fs: Seq<SpecField>, n: u64, i: int)
    requires
        spec_record_wf(fs),
        0 <= i < fs.len(),
        fs[i].name == n,
    ensures
        field_at(fs, n) == i,
        has_field(fs, n),
        field_value(fs, n) == fs[i].value,
{
    assert(has_field(fs, n));
    let k = field_at(fs, n);
    assert(0 <= k < fs.len() && fs[k].name == n);
    if k < i {
        assert(fs[k].name != fs[i].name);
    } else if i < k {
        assert(fs[i].name != fs[k].name);
    }
}

/// Looks a field up by name, returning a reference to its value.
pub fn find_field<'a>(r: &'a Record, n: u64) -> (res: Option<&'a Value>)
    requires
        spec_record_wf(r@),
    ensures
        match res {
            Some(v) => has_field(r@, n) && v@ == field_value(r@, n),
            None => !has_field(r@, n),
        },
{
    let len: usize = r.fields.len();
    for i in 0..len
        invariant
            len == r.fields@.len(),
            r@.len() == r.fields@.len(),
            spec_record_wf(r@),
            forall|j: int| 0 <= j < i ==> r@[j].name != n,
            forall|j: int| 0 <= j < len ==> r@[j] == (SpecField {
                name: r.fields@[j].name,
                value: value_view(r.fields@[j].value),
            }),
    {
        if r.fields[i].name == n {
            proof {
                lemma_field_at_unique(r@, n, i as int);
            }
            return Some(&r.fields[i].value);
        }
    }
    None
}

/// Mutably borrows the value of the field named `n`, for a later, explicit
/// update: matching never mutates, so changing a field is this separate
/// step.  Afterwards the record holds whatever the caller wrote through the
/// reference in place of that field's value, all other fields unchanged.
pub fn field_mut<'a>(r: &'a mut Record, n: u64) -> (res: &'a mut Value)
    requires
        spec_record_wf(old(r)@),
        has_field(old(r)@, n),
    ensures
        *res == old(r).fields@[field_at(old(r)@, n)].value,
        final(r).fields@ == old(r).fields@.update(
            field_at(old(r)@, n),
            (Field { name: n, value: *final(res) }),
        ),
{
    let len: usize = r.fields.len();
    let mut i: usize = 0;
    while i < len
        invariant
            i <= len,
            len == r.fields@.len(),
            *r == *old(r),
            spec_record_wf(old(r)@),
            has_field(old(r)@, n),
            r@.len() == r.fields@.len(),
            forall|j: int| 0 <= j < len ==> #[trigger] r@[j].name == r.fields@[j].name,
            forall|j: int| 0 <= j < i ==> r@[j].name != n,
        decreases len - i,
    {
        if r.fields[i].name == n {
            proof {
                lemma_field_at_unique(old(r)@, n, i as int);
            }
            return &mut r.fields[i].value;
        }
        i = i + 1;
    }
    proof {
        let k = field_at(old(r)@, n);
        assert(r@[k].name == n);
        assert(false);
    }
    vstd::pervasive::unreached()
}

} // verus!
