//! Matching semantics and the executable matcher.
//!
//! The matcher evaluates patterns strictly in list order against one record
//! and returns the first pattern whose every slot succeeds, together with
//! the bindings that pattern introduces.  A validation pass runs first: a
//! pattern that omits a field of the record without a rest marker is
//! rejected as malformed before any matching is attempted.

use vstd::prelude::*;
use crate::value::{Value, Field, Record, SpecValue, SpecField, spec_record_wf, spec_value_wf,
    has_field, field_at, field_value, record_view, value_view, find_field};
use crate::pattern::{Slot, FieldPat, Pattern, pat_wf, slot_wf, check_pattern};

verus! {

/// One name-value pair produced by a successful match.
#[derive(Debug, PartialEq)]
pub struct Binding {
    pub name: u64,
    pub value: Value,
}

/// The mathematical model of one binding.
pub struct SpecBinding {
    pub name: u64,
    pub value: SpecValue,
}

impl View for Binding {
    type V = SpecBinding;

    open spec fn view(&self) -> SpecBinding {
        SpecBinding { name: self.name, value: self.value@ }
    }
}

/// The model of a binding list.
pub open spec fn binds_view(bs: Seq<Binding>) -> Seq<SpecBinding> {
    bs.map_values(|b: Binding| b@)
}

/// Why a match call failed.
#[derive(Clone, Copy, PartialEq, Eq, Structural, Debug)]
pub enum MatchError {
    /// Some pattern omits a field of the record without a rest marker
    /// (or otherwise fails validation); detected before matching.
    MalformedPattern,
    /// Every pattern was tried and none is satisfied by the record.
    NoPatternMatches,
}

/// A successful match: the index of the first matching pattern and the
/// bindings it introduces, in slot order.
#[derive(Debug, PartialEq)]
pub struct MatchOutcome {
    pub index: usize,
    pub bindings: Vec<Binding>,
}

/// Whether one slot succeeds against the value of its field.
pub open spec fn slot_matches(s: Slot, v: SpecValue) -> bool
    decreases s, 0int,
{
    match s {
        Slot::Bind(_) => true,
        Slot::Lit(c) => v == SpecValue::Int(c as int),
        Slot::Nested(p) => match v {
            SpecValue::Int(_) => false,
            SpecValue::Rec(fs) => fields_match(p.fields@, fs),
        },
    }
}

/// Whether every listed slot succeeds against its field of the record.
pub open spec fn fields_match(fps: Seq<FieldPat>, fs: Seq<SpecField>) -> bool
    decreases fps, 1int,
{
    forall|i: int|
        0 <= i < fps.len() ==> slot_matches(#[trigger] fps[i].slot, field_value(fs, fps[i].field))
}

/// Whether the pattern matches the record.
pub open spec fn pat_matches(p: Pattern, fs: Seq<SpecField>) -> bool {
    fields_match(p.fields@, fs)
}

/// The bindings one slot contributes.
pub open spec fn slot_binds(s: Slot, v: SpecValue) -> Seq<SpecBinding>
    decreases s, 0int,
{
    match s {
        Slot::Bind(n) => seq![SpecBinding { name: n, value: v }],
        Slot::Lit(_) => Seq::empty(),
        Slot::Nested(p) => match v {
            SpecValue::Int(_) => Seq::empty(),
            SpecValue::Rec(fs) => fields_binds(p.fields@, fs),
        },
    }
}

/// The bindings a list of field slots contributes, in slot order.
pub open spec fn fields_binds(fps: Seq<FieldPat>, fs: Seq<SpecField>) -> Seq<SpecBinding>
    decreases fps, 1int,
{
    if fps.len() == 0 {
        Seq::empty()
    } else {
        slot_binds(fps[0].slot, field_value(fs, fps[0].field)) + fields_binds(
            fps.subrange(1, fps.len() as int),
            fs,
        )
    }
}

/// The bindings a whole pattern produces on the record.
pub open spec fn pat_binds(p: Pattern, fs: Seq<SpecField>) -> Seq<SpecBinding> {
    fields_binds(p.fields@, fs)
}

/// The names of a binding list, in order.
pub open spec fn binds_names(bs: Seq<SpecBinding>) -> Seq<u64> {
    bs.map_values(|b: SpecBinding| b.name)
}

/// The binding set as a map from name to captured value; with the names
/// distinct (as a well-formed pattern guarantees) each name simply maps to
/// the value its binding slot captured.
pub open spec fn binds_map(bs: Seq<SpecBinding>) -> Map<u64, SpecValue>
    decreases bs.len(),
{
    if bs.len() == 0 {
        Map::empty()
    } else {
        binds_map(bs.subrange(1, bs.len() as int)).insert(bs[0].name, bs[0].value)
    }
}

/// A name is in the binding set exactly when some binding carries it, and
/// it maps to the value of the first such binding.
pub proof fn lemma_binds_map_key(bs: Seq<SpecBinding>, n: u64)
    ensures
        binds_map(bs).contains_key(n) == binds_names(bs).contains(n),
        forall|i: int|
            0 <= i < bs.len() && bs[i].name == n && (forall|j: int|
                0 <= j < i ==> bs[j].name != n) ==> binds_map(bs)[n] == bs[i].value,
    decreases bs.len(),
{
    if bs.len() == 0 {
        assert(!binds_names(bs).contains(n));
    } else {
        let tail = bs.subrange(1, bs.len() as int);
        lemma_binds_map_key(tail, n);
        if bs[0].name == n {
            assert(binds_names(bs)[0] == n);
            assert(binds_names(bs).contains(n));
        } else {
            assert(binds_map(bs).contains_key(n) == binds_map(tail).contains_key(n));
            assert forall|k: int|
                0 <= k < tail.len() implies binds_names(tail)[k] == binds_names(bs)[k + 1] by {}
            if binds_names(tail).contains(n) {
                let w = choose|k: int| 0 <= k < tail.len() && binds_names(tail)[k] == n;
                assert(binds_names(bs)[w + 1] == n);
                assert(binds_names(bs).contains(n));
            }
            if binds_names(bs).contains(n) {
                let w = choose|k: int| 0 <= k < binds_names(bs).len() && binds_names(bs)[k] == n;
                assert(w != 0);
                assert(binds_names(tail)[w - 1] == n);
                assert(binds_names(tail).contains(n));
            }
        }
        assert forall|i: int|
            0 <= i < bs.len() && bs[i].name == n && (forall|j: int|
                0 <= j < i ==> bs[j].name != n) implies binds_map(bs)[n] == bs[i].value by {
            if i == 0 {
                assert(binds_map(bs)[n] == bs[0].value);
            } else {
                assert(bs[0].name != n);
                assert(tail[i - 1].name == n);
                assert(forall|j: int| 0 <= j < i - 1 ==> tail[j].name != n);
                assert(binds_map(tail)[n] == tail[i - 1].value);
            }
        }
    }
}

/// Whether every pattern of the list is well formed for the record.
pub open spec fn pats_wf(fs: Seq<SpecField>, ps: Seq<Pattern>) -> bool {
    forall|k: int| 0 <= k < ps.len() ==> pat_wf(#[trigger] ps[k], fs)
}

/// Whether some pattern of the list matches the record.
pub open spec fn some_pat_matches(fs: Seq<SpecField>, ps: Seq<Pattern>) -> bool {
    exists|k: int| 0 <= k < ps.len() && pat_matches(#[trigger] ps[k], fs)
}

/// What a match call returns, as a function of its inputs alone:
/// `MalformedPattern` exactly when some pattern fails validation; otherwise
/// the least index of a matching pattern, with that pattern's bindings;
/// otherwise `NoPatternMatches`.
pub open spec fn match_post(
    fs: Seq<SpecField>,
    ps: Seq<Pattern>,
    res: Result<MatchOutcome, MatchError>,
) -> bool {
    match res {
        Result::Ok(o) => {
            &&& pats_wf(fs, ps)
            &&& 0 <= (o.index as int) < ps.len()
            &&& pat_matches(ps[o.index as int], fs)
            &&& forall|j: int| 0 <= j < o.index as int ==> !pat_matches(#[trigger] ps[j], fs)
            &&& binds_view(o.bindings@) == pat_binds(ps[o.index as int], fs)
        },
        Result::Err(e) => match e {
            MatchError::MalformedPattern => !pats_wf(fs, ps),
            MatchError::NoPatternMatches => pats_wf(fs, ps) && !some_pat_matches(fs, ps),
        },
    }
}

/// Appending one field slot on the right extends the bindings on the right.
pub proof fn lemma_fields_binds_push(fps: Seq<FieldPat>, fp: FieldPat, fs: Seq<SpecField>)
    ensures
        fields_binds(fps.push(fp), fs) == fields_binds(fps, fs) + slot_binds(
            fp.slot,
            field_value(fs, fp.field),
        ),
    decreases fps.len(),
{
    let whole = fps.push(fp);
    let extra = slot_binds(fp.slot, field_value(fs, fp.field));
    if fps.len() == 0 {
        assert(whole[0] == fp);
        assert(whole.subrange(1, whole.len() as int) =~= Seq::<FieldPat>::empty());
        assert(fields_binds(whole.subrange(1, whole.len() as int), fs) == Seq::<
            SpecBinding,
        >::empty());
        assert(fields_binds(whole, fs) =~= extra);
        assert(fields_binds(fps, fs) + extra =~= extra);
    } else {
        assert(whole[0] == fps[0]);
        let fps_tail = fps.subrange(1, fps.len() as int);
        assert(whole.subrange(1, whole.len() as int) =~= fps_tail.push(fp));
        lemma_fields_binds_push(fps_tail, fp, fs);
        let head = slot_binds(fps[0].slot, field_value(fs, fps[0].field));
        assert(fields_binds(whole, fs) == head + (fields_binds(fps_tail, fs) + extra));
        assert(head + (fields_binds(fps_tail, fs) + extra) =~= (head + fields_binds(fps_tail, fs))
            + extra);
        assert(fields_binds(fps, fs) == head + fields_binds(fps_tail, fs));
    }
}

/// Deep copy of a value; the copy has the same model as the original.
pub fn copy_value(v: &Value) -> (r: Value)
    ensures
        r@ == v@,
    decreases v,
{
    match v {
        Value::Int(n) => Value::Int(*n),
        Value::Rec(rec) => {
            let mut fields: Vec<Field> = Vec::new();
            let len: usize = rec.fields.len();
            let mut i: usize = 0;
            while i < len
                invariant
                    i <= len,
                    *v == Value::Rec(*rec),
                    len == rec.fields@.len(),
                    fields@.len() == i,
                    forall|j: int|
                        0 <= j < i ==> #[trigger] fields@[j].name == rec.fields@[j].name
                            && value_view(fields@[j].value) == value_view(rec.fields@[j].value),
                decreases len - i,
            {
                proof {
                    assert(decreases_to!(*v => (*v)->Rec_0));
                    assert(decreases_to!(*rec => rec.fields@[i as int].value));
                }
                let ghost prev = fields@;
                let fv = copy_value(&rec.fields[i].value);
                fields.push(Field { name: rec.fields[i].name, value: fv });
                proof {
                    assert(fields@.last().name == rec.fields@[i as int].name);
                    assert(value_view(fields@.last().value) == value_view(
                        rec.fields@[i as int].value,
                    ));
                    assert(forall|j: int| 0 <= j < i ==> fields@[j] == prev[j]);
                }
                i = i + 1;
            }
            proof {
                assert(record_view(fields@) =~= record_view(rec.fields@));
            }
            Value::Rec(Record { fields })
        },
    }
}

/// Attempts one pattern against the record.  Returns the bindings on
/// success, `None` on a mismatch; partial bindings are never exposed.
pub fn try_match(p: &Pattern, r: &Record) -> (res: Option<Vec<Binding>>)
    requires
        spec_record_wf(r@),
        pat_wf(*p, r@),
    ensures
        match res {
            Some(bs) => pat_matches(*p, r@) && binds_view(bs@) == pat_binds(*p, r@),
            None => !pat_matches(*p, r@),
        },
    decreases *p,
{
    let mut binds: Vec<Binding> = Vec::new();
    let len: usize = p.fields.len();
    for i in 0..len
        invariant
            len == p.fields@.len(),
            spec_record_wf(r@),
            pat_wf(*p, r@),
            forall|j: int|
                0 <= j < i ==> slot_matches(
                    #[trigger] p.fields@[j].slot,
                    field_value(r@, p.fields@[j].field),
                ),
            binds_view(binds@) == fields_binds(p.fields@.subrange(0, i as int), r@),
        decreases len - i,
    {
        let ghost prefix = p.fields@.subrange(0, i as int);
        let ghost fname = p.fields@[i as int].field;
        assert(has_field(r@, fname));
        let v = match find_field(r, p.fields[i].field) {
            Some(v) => v,
            None => { return None; },
        };
        assert(v@ == field_value(r@, fname));
        match &p.fields[i].slot {
            Slot::Bind(n) => {
                let cv = copy_value(v);
                binds.push(Binding { name: *n, value: cv });
                proof {
                    assert(binds_view(binds@) =~= binds_view(binds@.drop_last()).push(
                        SpecBinding { name: *n, value: v@ },
                    ));
                }
            },
            Slot::Lit(c) => {
                match v {
                    Value::Int(m) => {
                        if *m != *c {
                            assert(!slot_matches(p.fields@[i as int].slot, v@));
                            return None;
                        }
                    },
                    Value::Rec(_) => {
                        assert(!slot_matches(p.fields@[i as int].slot, v@));
                        return None;
                    },
                }
            },
            Slot::Nested(q) => {
                match v {
                    Value::Int(_) => {
                        assert(!slot_matches(p.fields@[i as int].slot, v@));
                        return None;
                    },
                    Value::Rec(sub) => {
                        proof {
                            let k = field_at(r@, fname);
                            assert(0 <= k < r@.len() && r@[k].name == fname);
                            assert(spec_value_wf(r@[k].value));
                            assert(slot_wf(p.fields@[i as int].slot, field_value(r@, fname)));
                            assert(v@ == SpecValue::Rec(sub@));
                        }
                        match try_match(q, sub) {
                            Some(mut sub_binds) => {
                                proof {
                                    assert(binds_view(binds@ + sub_binds@) =~= binds_view(binds@)
                                        + binds_view(sub_binds@));
                                }
                                binds.append(&mut sub_binds);
                            },
                            None => {
                                assert(!slot_matches(p.fields@[i as int].slot, v@));
                                return None;
                            },
                        }
                    },
                }
            },
        }
        proof {
            lemma_fields_binds_push(prefix, p.fields@[i as int], r@);
            assert(prefix.push(p.fields@[i as int]) =~= p.fields@.subrange(0, i as int + 1));
        }
    }
    proof {
        assert(p.fields@.subrange(0, len as int) =~= p.fields@);
    }
    Some(binds)
}

/// Matches a record, read through a shared view, against an ordered list of
/// patterns: validates every pattern first, then returns the first match in
/// list order.  The caller keeps the record and may match it again.
pub fn match_record(r: &Record, ps: &Vec<Pattern>) -> (res: Result<MatchOutcome, MatchError>)
    requires
        spec_record_wf(r@),
    ensures
        match_post(r@, ps@, res),
{
    let n: usize = ps.len();
    let mut k: usize = 0;
    while k < n
        invariant
            k <= n,
            n == ps@.len(),
            spec_record_wf(r@),
            forall|j: int| 0 <= j < k ==> pat_wf(#[trigger] ps@[j], r@),
        decreases n - k,
    {
        if !check_pattern(&ps[k], r) {
            assert(!pat_wf(ps@[k as int], r@));
            return Err(MatchError::MalformedPattern);
        }
        k = k + 1;
    }
    assert(pats_wf(r@, ps@));
    let mut k: usize = 0;
    while k < n
        invariant
            k <= n,
            n == ps@.len(),
            spec_record_wf(r@),
            pats_wf(r@, ps@),
            forall|j: int| 0 <= j < k ==> !pat_matches(#[trigger] ps@[j], r@),
        decreases n - k,
    {
        match try_match(&ps[k], r) {
            Some(bs) => {
                return Ok(MatchOutcome { index: k, bindings: bs });
            },
            None => {
            },
        }
        k = k + 1;
    }
    assert(!some_pat_matches(r@, ps@));
    Err(MatchError::NoPatternMatches)
}

/// Matches a record against an ordered list of patterns, consuming the
/// record: ownership passes to the call and the caller's copy is gone
/// afterwards.  The outcome is the same as matching through a shared view.
pub fn match_record_owned(r: Record, ps: &Vec<Pattern>) -> (res: Result<MatchOutcome, MatchError>)
    requires
        spec_record_wf(r@),
    ensures
        match_post(r@, ps@, res),
{
    match_record(&r, ps)
}

/// Looks a name up in a binding list: returns the value of the first
/// binding carrying the name, which under the binding-set model is the
/// value the name maps to.
pub fn lookup_binding<'a>(bs: &'a Vec<Binding>, n: u64) -> (res: Option<&'a Value>)
    ensures
        match res {
            Some(v) => binds_map(binds_view(bs@)).contains_key(n) && v@ == binds_map(
                binds_view(bs@),
            )[n],
            None => !binds_map(binds_view(bs@)).contains_key(n),
        },
{
    let len: usize = bs.len();
    let mut i: usize = 0;
    while i < len
        invariant
            i <= len,
            len == bs@.len(),
            forall|j: int| 0 <= j < i ==> bs@[j].name != n,
        decreases len - i,
    {
        if bs[i].name == n {
            proof {
                let sb = binds_view(bs@);
                assert(sb[i as int].name == n);
                assert(forall|j: int| 0 <= j < i ==> sb[j].name != n);
                lemma_binds_map_key(sb, n);
                assert(binds_names(sb)[i as int] == n);
                assert(binds_names(sb).contains(n));
                assert(binds_map(sb)[n] == sb[i as int].value);
            }
            return Some(&bs[i].value);
        }
        i = i + 1;
    }
    proof {
        let sb = binds_view(bs@);
        lemma_binds_map_key(sb, n);
        if binds_names(sb).contains(n) {
            let w = choose|k: int| 0 <= k < binds_names(sb).len() && binds_names(sb)[k] == n;
            assert(bs@[w].name == n);
        }
    }
    None
}

} // verus!
