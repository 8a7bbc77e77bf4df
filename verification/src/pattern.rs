//! Patterns: structural templates over records.
//!
//! A pattern lists, per field, one slot: a binding slot captures the field's
//! value under a name, a literal slot constrains the field to an exact
//! integer without capturing it, and a nested slot matches a field that is
//! itself a record against a sub-pattern.  A pattern that does not list every
//! field of the record must carry a rest marker; otherwise it is malformed,
//! which the validation pass rejects before any matching is attempted.

use vstd::prelude::*;
use crate::value::{Value, Record, SpecValue, SpecField, has_field, field_at, field_value,
    spec_record_wf, spec_value_wf, find_field};

verus! {

/// What a pattern says about one field.
#[derive(Debug, PartialEq)]
pub enum Slot {
    /// Capture the field's value under the given name.
    Bind(u64),
    /// Require the field's value to equal this integer; bind nothing.
    Lit(i64),
    /// Match the field, itself a record, against a sub-pattern.
    Nested(Pattern),
}

/// A field name paired with the slot constraining that field.
#[derive(Debug, PartialEq)]
pub struct FieldPat {
    pub field: u64,
    pub slot: Slot,
}

/// A pattern: per-field slots, plus a rest marker that permits the record to
/// have further fields the pattern does not list.
#[derive(Debug, PartialEq)]
pub struct Pattern {
    pub fields: Vec<FieldPat>,
    pub rest: bool,
}

/// The names a slot introduces as bindings, in order.
pub open spec fn slot_bind_names(s: Slot) -> Seq<u64>
    decreases s, 0int,
{
    match s {
        Slot::Bind(n) => seq![n],
        Slot::Lit(_) => Seq::empty(),
        Slot::Nested(p) => fields_bind_names(p.fields@),
    }
}

/// The names a list of field slots introduces, in order.
pub open spec fn fields_bind_names(fps: Seq<FieldPat>) -> Seq<u64>
    decreases fps, 1int,
{
    if fps.len() == 0 {
        Seq::empty()
    } else {
        slot_bind_names(fps[0].slot) + fields_bind_names(fps.subrange(1, fps.len() as int))
    }
}

/// The names a whole pattern introduces, in order.
pub open spec fn pat_bind_names(p: Pattern) -> Seq<u64> {
    fields_bind_names(p.fields@)
}

/// Whether the pattern lists a field named `n`.
pub open spec fn pat_mentions(p: Pattern, n: u64) -> bool {
    exists|i: int| 0 <= i < p.fields@.len() && p.fields@[i].field == n
}

/// Well-formedness of one slot against the value it will face: a nested
/// pattern on a record field must itself be well formed for that record.
pub open spec fn slot_wf(s: Slot, v: SpecValue) -> bool
    decreases s, 0int,
{
    match s {
        Slot::Bind(_) => true,
        Slot::Lit(_) => true,
        Slot::Nested(p) => match v {
            SpecValue::Int(_) => true,
            SpecValue::Rec(fs) => pat_wf(p, fs),
        },
    }
}

/// Well-formedness of a pattern against a record shape:
/// - the listed field names are distinct and each occurs in the record;
/// - without a rest marker, every record field is listed;
/// - each name is introduced as a binding at most once;
/// - nested patterns are well formed against their sub-records.
pub open spec fn pat_wf(p: Pattern, fs: Seq<SpecField>) -> bool
    decreases p, 1int,
{
    &&& forall|i: int, j: int|
        0 <= i < j < p.fields@.len() ==> p.fields@[i].field != p.fields@[j].field
    &&& forall|i: int| 0 <= i < p.fields@.len() ==> has_field(fs, #[trigger] p.fields@[i].field)
    &&& (p.rest || forall|j: int| 0 <= j < fs.len() ==> pat_mentions(p, #[trigger] fs[j].name))
    &&& pat_bind_names(p).no_duplicates()
    &&& forall|i: int|
        0 <= i < p.fields@.len() ==> slot_wf(
            #[trigger] p.fields@[i].slot,
            field_value(fs, p.fields@[i].field),
        )
}

/// Appending one field slot on the right extends the bound names on the
/// right.
pub proof fn lemma_fields_bind_names_push(fps: Seq<FieldPat>, fp: FieldPat)
    ensures
        fields_bind_names(fps.push(fp)) == fields_bind_names(fps) + slot_bind_names(fp.slot),
    decreases fps.len(),
{
    let whole = fps.push(fp);
    let extra = slot_bind_names(fp.slot);
    if fps.len() == 0 {
        assert(whole[0] == fp);
        assert(whole.subrange(1, whole.len() as int) =~= Seq::<FieldPat>::empty());
        assert(fields_bind_names(whole.subrange(1, whole.len() as int)) == Seq::<u64>::empty());
        assert(fields_bind_names(whole) =~= extra);
        assert(fields_bind_names(fps) + extra =~= extra);
    } else {
        assert(whole[0] == fps[0]);
        let fps_tail = fps.subrange(1, fps.len() as int);
        assert(whole.subrange(1, whole.len() as int) =~= fps_tail.push(fp));
        lemma_fields_bind_names_push(fps_tail, fp);
        let head = slot_bind_names(fps[0].slot);
        assert(fields_bind_names(whole) == head + (fields_bind_names(fps_tail) + extra));
        assert(head + (fields_bind_names(fps_tail) + extra) =~= (head + fields_bind_names(
            fps_tail,
        )) + extra);
        assert(fields_bind_names(fps) == head + fields_bind_names(fps_tail));
    }
}

/// Collects the names the listed slots introduce, in order, onto `out`.
fn collect_bind_names(fps: &Vec<FieldPat>, out: &mut Vec<u64>)
    ensures
        final(out)@ == old(out)@ + fields_bind_names(fps@),
    decreases fps@,
{
    let len: usize = fps.len();
    let mut i: usize = 0;
    while i < len
        invariant
            i <= len,
            len == fps@.len(),
            out@ == old(out)@ + fields_bind_names(fps@.subrange(0, i as int)),
        decreases len - i,
    {
        let ghost prefix = fps@.subrange(0, i as int);
        match &fps[i].slot {
            Slot::Bind(n) => {
                out.push(*n);
                proof {
                    assert(out@ =~= old(out)@ + (fields_bind_names(prefix) + seq![*n]));
                }
            },
            Slot::Lit(_) => {
            },
            Slot::Nested(q) => {
                proof {
                    assert(decreases_to!(fps@ => fps@[i as int].slot));
                    assert(decreases_to!(Slot::Nested(*q) => q.fields@));
                }
                collect_bind_names(&q.fields, out);
                proof {
                    assert(out@ =~= old(out)@ + (fields_bind_names(prefix) + fields_bind_names(
                        q.fields@,
                    )));
                }
            },
        }
        proof {
            lemma_fields_bind_names_push(prefix, fps@[i as int]);
            assert(prefix.push(fps@[i as int]) =~= fps@.subrange(0, i as int + 1));
        }
        i = i + 1;
    }
    proof {
        assert(fps@.subrange(0, len as int) =~= fps@);
    }
}

/// Whether a list of names holds no name twice.
fn names_distinct(ns: &Vec<u64>) -> (b: bool)
    ensures
        b == ns@.no_duplicates(),
{
    let len: usize = ns.len();
    let mut i: usize = 0;
    while i < len
        invariant
            i <= len,
            len == ns@.len(),
            forall|x: int, y: int| 0 <= x < y < len && x < i ==> ns@[x] != ns@[y],
        decreases len - i,
    {
        let mut j: usize = i + 1;
        while j < len
            invariant
                i < j <= len || (i + 1 == j && j > len),
                i < len,
                len == ns@.len(),
                forall|y: int| i < y < j ==> ns@[i as int] != ns@[y],
            decreases len - j,
        {
            if ns[i] == ns[j] {
                return false;
            }
            j = j + 1;
        }
        i = i + 1;
    }
    true
}

/// Checks a pattern against a record: returns whether the pattern is well
/// formed for it.  A pattern that omits a field of the record without a
/// rest marker, lists a field the record lacks, lists a field twice, or
/// introduces one binding name twice, is malformed.
pub fn check_pattern(p: &Pattern, r: &Record) -> (b: bool)
    requires
        spec_record_wf(r@),
    ensures
        b == pat_wf(*p, r@),
    decreases *p,
{
    let plen: usize = p.fields.len();
    // listed field names are distinct
    let mut i: usize = 0;
    while i < plen
        invariant
            i <= plen,
            plen == p.fields@.len(),
            forall|x: int, y: int|
                0 <= x < y < plen && x < i ==> p.fields@[x].field != p.fields@[y].field,
        decreases plen - i,
    {
        let mut j: usize = i + 1;
        while j < plen
            invariant
                i < j <= plen,
                i < plen,
                plen == p.fields@.len(),
                forall|y: int| i < y < j ==> p.fields@[i as int].field != p.fields@[y].field,
            decreases plen - j,
        {
            if p.fields[i].field == p.fields[j].field {
                return false;
            }
            j = j + 1;
        }
        i = i + 1;
    }
    // every listed field occurs in the record
    let mut i: usize = 0;
    while i < plen
        invariant
            i <= plen,
            plen == p.fields@.len(),
            spec_record_wf(r@),
            forall|x: int| 0 <= x < i ==> has_field(r@, #[trigger] p.fields@[x].field),
        decreases plen - i,
    {
        if find_field(r, p.fields[i].field).is_none() {
            return false;
        }
        i = i + 1;
    }
    // without a rest marker, every record field is listed
    if !p.rest {
        let rlen: usize = r.fields.len();
        let mut j: usize = 0;
        while j < rlen
            invariant
                !p.rest,
                j <= rlen,
                rlen == r.fields@.len(),
                r@.len() == r.fields@.len(),
                plen == p.fields@.len(),
                forall|y: int| 0 <= y < rlen ==> r@[y].name == r.fields@[y].name,
                forall|y: int| 0 <= y < j ==> pat_mentions(*p, #[trigger] r@[y].name),
            decreases rlen - j,
        {
            let mut i: usize = 0;
            let mut found: bool = false;
            while i < plen
                invariant
                    i <= plen,
                    plen == p.fields@.len(),
                    j < rlen,
                    rlen == r.fields@.len(),
                    r@.len() == r.fields@.len(),
                    r@[j as int].name == r.fields@[j as int].name,
                    found ==> pat_mentions(*p, r@[j as int].name),
                    !found ==> forall|x: int|
                        0 <= x < i ==> p.fields@[x].field != r@[j as int].name,
                decreases plen - i,
            {
                if p.fields[i].field == r.fields[j].name {
                    found = true;
                }
                i = i + 1;
            }
            if !found {
                assert(!pat_mentions(*p, r@[j as int].name));
                return false;
            }
            j = j + 1;
        }
    }
    // no binding name is introduced twice
    let mut names: Vec<u64> = Vec::new();
    collect_bind_names(&p.fields, &mut names);
    assert(names@ =~= pat_bind_names(*p));
    if !names_distinct(&names) {
        return false;
    }
    // nested patterns are well formed against their sub-records
    let mut i: usize = 0;
    while i < plen
        invariant
            i <= plen,
            plen == p.fields@.len(),
            spec_record_wf(r@),
            forall|x: int| 0 <= x < plen ==> has_field(r@, #[trigger] p.fields@[x].field),
            forall|x: int|
                0 <= x < i ==> slot_wf(
                    #[trigger] p.fields@[x].slot,
                    field_value(r@, p.fields@[x].field),
                ),
        decreases plen - i,
    {
        let ghost fname = p.fields@[i as int].field;
        match &p.fields[i].slot {
            Slot::Bind(_) => {
            },
            Slot::Lit(_) => {
            },
            Slot::Nested(q) => {
                let v = match find_field(r, p.fields[i].field) {
                    Some(v) => v,
                    None => {
                        return false;
                    },
                };
                match v {
                    Value::Int(_) => {
                    },
                    Value::Rec(sub) => {
                        proof {
                            let k = field_at(r@, fname);
                            assert(0 <= k < r@.len() && r@[k].name == fname);
                            assert(spec_value_wf(r@[k].value));
                            assert(v@ == SpecValue::Rec(sub@));
                            assert(decreases_to!(*p => p.fields@[i as int].slot));
                            assert(decreases_to!(Slot::Nested(*q) => *q));
                        }
                        if !check_pattern(q, sub) {
                            assert(!slot_wf(p.fields@[i as int].slot, field_value(r@, fname)));
                            return false;
                        }
                    },
                }
            },
        }
        assert(slot_wf(p.fields@[i as int].slot, field_value(r@, fname)));
        i = i + 1;
    }
    true
}

} // verus!
