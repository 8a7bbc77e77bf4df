//! Laws of the matcher, each proved from the definitions in `matcher`.
//!
//! These public proof functions state the guarantees a caller may rely on:
//! determinism, first-match-wins, what all-binding and literal slots do,
//! that a rest marker makes unlisted fields irrelevant, and that nested
//! matching composes.

use vstd::prelude::*;
use crate::value::{SpecValue, SpecField, spec_record_wf, spec_value_wf, has_field, field_at,
    field_value};
use crate::pattern::{Slot, FieldPat, Pattern, pat_wf, slot_wf, pat_bind_names, slot_bind_names,
    fields_bind_names, pat_mentions};
use crate::matcher::{MatchOutcome, MatchError, SpecBinding, slot_matches, fields_match,
    pat_matches, slot_binds, fields_binds, pat_binds, binds_names, binds_map, binds_view,
    pats_wf, some_pat_matches, match_post, lemma_binds_map_key};

verus! {

/// Matching is deterministic: any two results that satisfy the match
/// contract on the same record and pattern list agree on the matched index,
/// on the bindings, and on the error.
pub proof fn lemma_match_deterministic(
    fs: Seq<SpecField>,
    ps: Seq<Pattern>,
    res1: Result<MatchOutcome, MatchError>,
    res2: Result<MatchOutcome, MatchError>,
)
    requires
        match_post(fs, ps, res1),
        match_post(fs, ps, res2),
    ensures
        res1 is Ok == res2 is Ok,
        res1 is Ok && res2 is Ok ==> res1->Ok_0.index == res2->Ok_0.index && binds_view(
            res1->Ok_0.bindings@,
        ) == binds_view(res2->Ok_0.bindings@),
        res1 is Err && res2 is Err ==> res1->Err_0 == res2->Err_0,
{
    match (res1, res2) {
        (Result::Ok(o1), Result::Ok(o2)) => {
            if o1.index < o2.index {
                assert(!pat_matches(ps[o1.index as int], fs));
            } else if o2.index < o1.index {
                assert(!pat_matches(ps[o2.index as int], fs));
            }
            assert(o1.index == o2.index);
        },
        (Result::Ok(o1), Result::Err(e2)) => {
            assert(some_pat_matches(fs, ps));
            assert(false);
        },
        (Result::Err(e1), Result::Ok(o2)) => {
            assert(some_pat_matches(fs, ps));
            assert(false);
        },
        (Result::Err(e1), Result::Err(e2)) => {
            assert(e1 == e2);
        },
    }
}

/// First match wins: if two patterns of the list both match the record,
/// the result is the earlier index (at or before the first of the two),
/// never the later one, with that pattern's bindings.
pub proof fn lemma_first_match_wins(
    fs: Seq<SpecField>,
    ps: Seq<Pattern>,
    res: Result<MatchOutcome, MatchError>,
    i: int,
    j: int,
)
    requires
        match_post(fs, ps, res),
        pats_wf(fs, ps),
        0 <= i < j < ps.len(),
        pat_matches(ps[i], fs),
        pat_matches(ps[j], fs),
    ensures
        res is Ok,
        res matches Ok(o) ==> o.index <= i && o.index < j && binds_view(o.bindings@) == pat_binds(
            ps[o.index as int],
            fs,
        ),
{
    assert(some_pat_matches(fs, ps));
    match res {
        Result::Ok(o) => {
            if o.index > i {
                assert(!pat_matches(ps[i], fs));
            }
        },
        Result::Err(e) => {
            assert(false);
        },
    }
}

/// Nested matching composes: a nested slot on a record-valued field
/// matches, and binds, exactly as the sub-pattern does on the sub-record
/// taken by itself.
pub proof fn lemma_nested_composes(q: Pattern, sub: Seq<SpecField>)
    ensures
        slot_matches(Slot::Nested(q), SpecValue::Rec(sub)) == pat_matches(q, sub),
        slot_binds(Slot::Nested(q), SpecValue::Rec(sub)) == pat_binds(q, sub),
{
}

/// With a rest marker, only the listed fields matter: two records that
/// agree on the values of every field the pattern lists match alike and
/// yield the same bindings, whatever unlisted fields either record has.
pub proof fn lemma_rest_marker(p: Pattern, fs1: Seq<SpecField>, fs2: Seq<SpecField>)
    requires
        p.rest,
        forall|i: int|
            0 <= i < p.fields@.len() ==> field_value(fs1, #[trigger] p.fields@[i].field)
                == field_value(fs2, p.fields@[i].field),
    ensures
        pat_matches(p, fs1) == pat_matches(p, fs2),
        pat_binds(p, fs1) == pat_binds(p, fs2),
{
    lemma_fields_agree(p.fields@, fs1, fs2);
}

/// Both match and bindings depend only on the values of the listed fields.
proof fn lemma_fields_agree(fps: Seq<FieldPat>, fs1: Seq<SpecField>, fs2: Seq<SpecField>)
    requires
        forall|i: int|
            0 <= i < fps.len() ==> field_value(fs1, #[trigger] fps[i].field) == field_value(
                fs2,
                fps[i].field,
            ),
    ensures
        fields_match(fps, fs1) == fields_match(fps, fs2),
        fields_binds(fps, fs1) == fields_binds(fps, fs2),
    decreases fps.len(),
{
    if fps.len() > 0 {
        let tail = fps.subrange(1, fps.len() as int);
        assert(forall|i: int|
            0 <= i < tail.len() ==> #[trigger] tail[i] == fps[i + 1]);
        lemma_fields_agree(tail, fs1, fs2);
        assert(fields_binds(fps, fs1) == fields_binds(fps, fs2));
    }
    if fields_match(fps, fs1) {
        assert forall|i: int| 0 <= i < fps.len() implies slot_matches(
            #[trigger] fps[i].slot,
            field_value(fs2, fps[i].field),
        ) by {
            assert(slot_matches(fps[i].slot, field_value(fs1, fps[i].field)));
        }
    }
    if fields_match(fps, fs2) {
        assert forall|i: int| 0 <= i < fps.len() implies slot_matches(
            #[trigger] fps[i].slot,
            field_value(fs1, fps[i].field),
        ) by {
            assert(slot_matches(fps[i].slot, field_value(fs2, fps[i].field)));
        }
    }
}

/// On a successful match the bindings carry exactly the names the pattern
/// introduces, in order: nothing else ever appears in the binding set.
pub proof fn lemma_match_bind_names(p: Pattern, fs: Seq<SpecField>)
    requires
        spec_record_wf(fs),
        pat_wf(p, fs),
        pat_matches(p, fs),
    ensures
        binds_names(pat_binds(p, fs)) == pat_bind_names(p),
{
    lemma_fields_binds_names(p.fields@, fs);
}

/// Slot-level part of `lemma_match_bind_names`.
proof fn lemma_slot_binds_names(s: Slot, v: SpecValue)
    requires
        spec_value_wf(v),
        slot_wf(s, v),
        slot_matches(s, v),
    ensures
        binds_names(slot_binds(s, v)) == slot_bind_names(s),
    decreases s, 0int,
{
    match s {
        Slot::Bind(n) => {
            assert(binds_names(slot_binds(s, v)) =~= slot_bind_names(s));
        },
        Slot::Lit(_) => {
            assert(binds_names(slot_binds(s, v)) =~= slot_bind_names(s));
        },
        Slot::Nested(p) => match v {
            SpecValue::Int(_) => {
                assert(false);
            },
            SpecValue::Rec(sub) => {
                lemma_fields_binds_names(p.fields@, sub);
            },
        },
    }
}

/// Field-list part of `lemma_match_bind_names`.
proof fn lemma_fields_binds_names(fps: Seq<FieldPat>, fs: Seq<SpecField>)
    requires
        spec_record_wf(fs),
        forall|i: int| 0 <= i < fps.len() ==> has_field(fs, #[trigger] fps[i].field),
        forall|i: int|
            0 <= i < fps.len() ==> slot_wf(#[trigger] fps[i].slot, field_value(fs, fps[i].field)),
        forall|i: int|
            0 <= i < fps.len() ==> slot_matches(
                #[trigger] fps[i].slot,
                field_value(fs, fps[i].field),
            ),
    ensures
        binds_names(fields_binds(fps, fs)) == fields_bind_names(fps),
    decreases fps, 1int,
{
    if fps.len() > 0 {
        let v = field_value(fs, fps[0].field);
        let k = field_at(fs, fps[0].field);
        assert(0 <= k < fs.len() && fs[k].name == fps[0].field);
        assert(spec_value_wf(fs[k].value));
        lemma_slot_binds_names(fps[0].slot, v);
        let tail = fps.subrange(1, fps.len() as int);
        assert(forall|i: int| 0 <= i < tail.len() ==> #[trigger] tail[i] == fps[i + 1]);
        lemma_fields_binds_names(tail, fs);
        let a = slot_binds(fps[0].slot, v);
        let b = fields_binds(tail, fs);
        assert(binds_names(a + b) =~= binds_names(a) + binds_names(b));
        assert(binds_names(fields_binds(fps, fs)) =~= fields_bind_names(fps));
    } else {
        assert(binds_names(fields_binds(fps, fs)) =~= fields_bind_names(fps));
    }
}

/// In a pattern whose every slot is a binding slot, each binding appears
/// at its slot's position and captures that field's value.
proof fn lemma_all_bind_binds(fps: Seq<FieldPat>, fs: Seq<SpecField>)
    requires
        forall|i: int| 0 <= i < fps.len() ==> #[trigger] fps[i].slot is Bind,
    ensures
        fields_binds(fps, fs).len() == fps.len(),
        forall|i: int|
            0 <= i < fps.len() ==> fields_binds(fps, fs)[i].name == fps[i].slot->Bind_0
                && fields_binds(fps, fs)[i].value == field_value(fs, fps[i].field),
    decreases fps.len(),
{
    if fps.len() > 0 {
        let tail = fps.subrange(1, fps.len() as int);
        assert(forall|i: int| 0 <= i < tail.len() ==> #[trigger] tail[i] == fps[i + 1]);
        lemma_all_bind_binds(tail, fs);
        assert(fps[0].slot is Bind);
        let head = slot_binds(fps[0].slot, field_value(fs, fps[0].field));
        assert(head =~= seq![
            SpecBinding { name: fps[0].slot->Bind_0, value: field_value(fs, fps[0].field) },
        ]);
        let rest = fields_binds(tail, fs);
        let all = fields_binds(fps, fs);
        assert(all == head + rest);
        assert forall|i: int| 0 <= i < fps.len() implies all[i].name == fps[i].slot->Bind_0
            && all[i].value == field_value(fs, fps[i].field) by {
            if i == 0 {
                assert(all[0] == head[0]);
            } else {
                assert(all[i] == rest[i - 1]);
                assert(tail[i - 1] == fps[i]);
            }
        }
    }
}

/// A pattern consisting solely of binding slots, one per record field,
/// matches any record of that shape, and binds every field's value under
/// the slot's given name.
pub proof fn lemma_all_binding_slots(p: Pattern, fs: Seq<SpecField>)
    requires
        spec_record_wf(fs),
        pat_wf(p, fs),
        forall|i: int| 0 <= i < p.fields@.len() ==> #[trigger] p.fields@[i].slot is Bind,
        forall|j: int| 0 <= j < fs.len() ==> pat_mentions(p, #[trigger] fs[j].name),
    ensures
        pat_matches(p, fs),
        forall|i: int|
            0 <= i < p.fields@.len() ==> binds_map(pat_binds(p, fs)).contains_pair(
                #[trigger] p.fields@[i].slot->Bind_0,
                field_value(fs, p.fields@[i].field),
            ),
{
    assert(pat_matches(p, fs));
    lemma_match_bind_names(p, fs);
    lemma_all_bind_binds(p.fields@, fs);
    let bs = pat_binds(p, fs);
    assert forall|i: int| 0 <= i < p.fields@.len() implies binds_map(bs).contains_pair(
        #[trigger] p.fields@[i].slot->Bind_0,
        field_value(fs, p.fields@[i].field),
    ) by {
        let n = p.fields@[i].slot->Bind_0;
        assert(bs[i].name == n);
        assert forall|j: int| 0 <= j < i implies bs[j].name != n by {
            assert(binds_names(bs)[j] == bs[j].name);
            assert(binds_names(bs)[i] == n);
            assert(binds_names(bs).no_duplicates());
        }
        lemma_binds_map_key(bs, n);
        assert(binds_names(bs)[i] == n);
        assert(binds_names(bs).contains(n));
        assert(binds_map(bs)[n] == bs[i].value);
    }
}

/// A literal slot on field `f` constrains exactly that field: the pattern
/// matches only if the field holds the literal, and, given every other slot
/// succeeds, that equality is all the slot asks.  The slot binds nothing,
/// so unless some other slot introduces `f` as a binding name, the binding
/// set has no key `f`.
pub proof fn lemma_literal_slot(p: Pattern, fs: Seq<SpecField>, i: int)
    requires
        spec_record_wf(fs),
        pat_wf(p, fs),
        0 <= i < p.fields@.len(),
        p.fields@[i].slot is Lit,
    ensures
        pat_matches(p, fs) ==> field_value(fs, p.fields@[i].field) == SpecValue::Int(
            p.fields@[i].slot->Lit_0 as int,
        ),
        field_value(fs, p.fields@[i].field) == SpecValue::Int(p.fields@[i].slot->Lit_0 as int)
            && (forall|j: int|
            0 <= j < p.fields@.len() && j != i ==> slot_matches(
                #[trigger] p.fields@[j].slot,
                field_value(fs, p.fields@[j].field),
            )) ==> pat_matches(p, fs),
        pat_matches(p, fs) && !pat_bind_names(p).contains(p.fields@[i].field)
            ==> !binds_map(pat_binds(p, fs)).contains_key(p.fields@[i].field),
{
    if pat_matches(p, fs) && !pat_bind_names(p).contains(p.fields@[i].field) {
        lemma_match_bind_names(p, fs);
        lemma_binds_map_key(pat_binds(p, fs), p.fields@[i].field);
    }
}

} // verus!
