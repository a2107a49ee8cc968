//! Messages held as decoded fields, and their encoding.
//!
//! A dynamic message consolidates the fields with the same field number into one field: the first
//! of them, with the values of the others appended to its additional values. Its fields are kept
//! ordered by field number.
use vstd::prelude::*;
use vstd::bytes::{spec_u32_to_le_bytes, spec_u64_to_le_bytes, u32_to_le_bytes, u64_to_le_bytes};
use vstd::slice::slice_to_vec;
use vstd::string::StringExecFns;
use vstd::utf8::encode_utf8;
use crate::builder_encoding::ld;
use crate::descriptor::{FileDescriptor, FileDescriptorSet, FileDescriptorView, MessageDescriptor};
use crate::message_decoder::{
    decode_message, fields_view, insert_sorted, spec_decode_message, spec_insert_pos, FieldDataView, ProtobufField,
    ProtobufFieldData, ProtobufFieldView,
};
use crate::wire::{encode_key, encode_varint, spec_encode_key, spec_encode_varint, WireType, MAX_TAG};
use crate::generators::{
    data_result_view, generator_ok, spec_generate_message, spec_generates, spec_state_data, state_data, GenerateError,
    Generator, JsonValue,
};

verus! {

/// Why a message could not be written.
#[derive(Clone, Copy, Debug, PartialEq, Eq, Structural)]
pub enum WriteError {
    /// The field number can not be written in a key (it lies outside `1 ..= MAX_TAG`).
    InvalidTag { field_num: u32 },
    /// The data of the field does not fit its wire type.
    MismatchedData { field_num: u32 },
    /// The field has a group wire type, which is not supported.
    GroupsNotSupported { field_num: u32 },
}

/// A message held as its decoded fields, consolidated by field number. The fields are kept in a
/// vector ordered by field number, the order they are written in, with at most one field per
/// number: a map keyed by field number would give them back in no stated order.
#[derive(Debug)]
pub struct DynamicMessage {
    /// The fields, ordered by field number, one per number.
    pub(crate) fields: Vec<ProtobufField>,
    /// The descriptors of the message's types.
    pub(crate) descriptors: FileDescriptorSet,
}

// ---------------------------------------------------------------------------------------------
// Consolidating fields
// ---------------------------------------------------------------------------------------------

/// The index of the field with number `n`, if there is one.
pub open spec fn spec_find_num(fields: Seq<ProtobufFieldView>, n: u32) -> Option<int>
    decreases fields.len(),
{
    if fields.len() == 0 {
        None
    } else if fields[0].field_num == n {
        Some(0)
    } else {
        match spec_find_num(fields.drop_first(), n) {
            Some(i) => Some(i + 1),
            None => None,
        }
    }
}

/// Adds a field to consolidated fields: where a field with its number is there already, its
/// value joins that field's additional values; else the field goes in by its number.
pub open spec fn spec_add_field(acc: Seq<ProtobufFieldView>, f: ProtobufFieldView) -> Seq<ProtobufFieldView> {
    match spec_find_num(acc, f.field_num) {
        Some(i) => acc.update(i, ProtobufFieldView { additional_data: acc[i].additional_data.push(f.data), ..acc[i] }),
        None => acc.insert(spec_insert_pos(acc, f.field_num), f),
    }
}

/// The fields consolidated by field number, in order of appearance.
pub open spec fn spec_consolidate(s: Seq<ProtobufFieldView>) -> Seq<ProtobufFieldView>
    decreases s.len(),
{
    if s.len() == 0 {
        s
    } else {
        spec_add_field(spec_consolidate(s.drop_last()), s.last())
    }
}

/// Some field has number `n`.
pub open spec fn has_num(s: Seq<ProtobufFieldView>, n: u32) -> bool {
    exists|i: int| 0 <= i < s.len() && #[trigger] s[i].field_num == n
}

/// Field numbers strictly increase.
pub open spec fn strictly_ordered(s: Seq<ProtobufFieldView>) -> bool {
    forall|i: int, j: int| 0 <= i < j < s.len() ==> (#[trigger] s[i]).field_num < (#[trigger] s[j]).field_num
}

proof fn lemma_find_num_first(fields: Seq<ProtobufFieldView>, n: u32, i: int)
    requires
        0 <= i < fields.len(),
        fields[i].field_num == n,
        forall|k: int| 0 <= k < i ==> (#[trigger] fields[k]).field_num != n,
    ensures
        spec_find_num(fields, n) == Some(i),
    decreases i,
{
    if i > 0 {
        let rest = fields.drop_first();
        assert forall|k: int| 0 <= k < i - 1 implies (#[trigger] rest[k]).field_num != n by {
            assert(rest[k] == fields[k + 1]);
        }
        lemma_find_num_first(rest, n, i - 1);
    }
}

proof fn lemma_find_num_none(fields: Seq<ProtobufFieldView>, n: u32)
    requires
        forall|k: int| 0 <= k < fields.len() ==> (#[trigger] fields[k]).field_num != n,
    ensures
        spec_find_num(fields, n) is None,
    decreases fields.len(),
{
    if fields.len() > 0 {
        let rest = fields.drop_first();
        assert forall|k: int| 0 <= k < rest.len() implies (#[trigger] rest[k]).field_num != n by {
            assert(rest[k] == fields[k + 1]);
        }
        lemma_find_num_none(rest, n);
    }
}

pub(crate) proof fn lemma_find_num_found(fields: Seq<ProtobufFieldView>, n: u32)
    ensures
        spec_find_num(fields, n) matches Some(i) ==> 0 <= i < fields.len() && fields[i].field_num == n,
        spec_find_num(fields, n) is None ==> forall|k: int| 0 <= k < fields.len() ==> (#[trigger] fields[k]).field_num != n,
    decreases fields.len(),
{
    if fields.len() > 0 {
        let rest = fields.drop_first();
        lemma_find_num_found(rest, n);
        assert forall|k: int| 1 <= k < fields.len() implies fields[k] == rest[k - 1] by {}
    }
}

pub(crate) proof fn lemma_insert_pos_bounds(sorted: Seq<ProtobufFieldView>, n: u32)
    requires
        strictly_ordered(sorted),
    ensures
        0 <= spec_insert_pos(sorted, n) <= sorted.len(),
        forall|i: int| 0 <= i < spec_insert_pos(sorted, n) ==> (#[trigger] sorted[i]).field_num <= n,
        forall|i: int| spec_insert_pos(sorted, n) <= i < sorted.len() ==> (#[trigger] sorted[i]).field_num > n,
    decreases sorted.len(),
{
    if sorted.len() > 0 {
        let d = sorted.drop_last();
        assert forall|i: int, j: int| 0 <= i < j < d.len() implies (#[trigger] d[i]).field_num < (#[trigger] d[j]).field_num by {
            assert(d[i] == sorted[i] && d[j] == sorted[j]);
        }
        lemma_insert_pos_bounds(d, n);
        if sorted.last().field_num <= n {
            assert forall|i: int| 0 <= i < sorted.len() implies (#[trigger] sorted[i]).field_num <= n by {
                if i < sorted.len() - 1 {
                    assert(sorted[i].field_num < sorted[sorted.len() - 1].field_num);
                }
            }
        } else {
            assert forall|i: int| 0 <= i < spec_insert_pos(sorted, n) implies (#[trigger] sorted[i]).field_num <= n by {
                assert(d[i] == sorted[i]);
            }
            assert forall|i: int| spec_insert_pos(sorted, n) <= i < sorted.len() implies (#[trigger] sorted[i]).field_num > n by {
                if i < sorted.len() - 1 {
                    assert(d[i] == sorted[i]);
                }
            }
        }
    }
}

/// Adding a field keeps field numbers strictly increasing, and the numbers present are those
/// that were, and the new field's.
pub proof fn lemma_add_field(acc: Seq<ProtobufFieldView>, f: ProtobufFieldView)
    requires
        strictly_ordered(acc),
    ensures
        strictly_ordered(spec_add_field(acc, f)),
        forall|n: u32| #[trigger] has_num(spec_add_field(acc, f), n) <==> (n == f.field_num || has_num(acc, n)),
{
    let r = spec_add_field(acc, f);
    lemma_find_num_found(acc, f.field_num);
    match spec_find_num(acc, f.field_num) {
        Some(i) => {
            assert forall|a: int| 0 <= a < r.len() implies (#[trigger] r[a]).field_num == acc[a].field_num by {}
            assert forall|n: u32| #[trigger] has_num(r, n) <==> (n == f.field_num || has_num(acc, n)) by {
                if n == f.field_num {
                    assert(r[i].field_num == n);
                }
                if exists|k: int| 0 <= k < acc.len() && #[trigger] acc[k].field_num == n {
                    let k = choose|k: int| 0 <= k < acc.len() && #[trigger] acc[k].field_num == n;
                    assert(r[k].field_num == n);
                }
                if exists|k: int| 0 <= k < r.len() && #[trigger] r[k].field_num == n {
                    let k = choose|k: int| 0 <= k < r.len() && #[trigger] r[k].field_num == n;
                    assert(acc[k].field_num == n);
                }
            }
        },
        None => {
            let p = spec_insert_pos(acc, f.field_num);
            lemma_insert_pos_bounds(acc, f.field_num);
            assert forall|a: int, b: int| 0 <= a < b < r.len() implies (#[trigger] r[a]).field_num < (#[trigger] r[b]).field_num by {
                if b < p {
                    assert(r[a] == acc[a] && r[b] == acc[b]);
                } else if b == p {
                    assert(r[a] == acc[a]);
                    assert(acc[a].field_num != f.field_num);
                } else if a < p {
                    assert(r[a] == acc[a] && r[b] == acc[b - 1]);
                } else if a == p {
                    assert(r[b] == acc[b - 1]);
                } else {
                    assert(r[a] == acc[a - 1] && r[b] == acc[b - 1]);
                }
            }
            assert forall|n: u32| #[trigger] has_num(r, n) <==> (n == f.field_num || has_num(acc, n)) by {
                if n == f.field_num {
                    assert(r[p].field_num == n);
                }
                if exists|k: int| 0 <= k < acc.len() && #[trigger] acc[k].field_num == n {
                    let k = choose|k: int| 0 <= k < acc.len() && #[trigger] acc[k].field_num == n;
                    if k < p {
                        assert(r[k].field_num == n);
                    } else {
                        assert(r[k + 1].field_num == n);
                    }
                }
                if exists|k: int| 0 <= k < r.len() && #[trigger] r[k].field_num == n {
                    let k = choose|k: int| 0 <= k < r.len() && #[trigger] r[k].field_num == n;
                    if k < p {
                        assert(acc[k].field_num == n);
                    } else if k > p {
                        assert(acc[k - 1].field_num == n);
                    }
                }
            }
        },
    }
}

/// Consolidated fields have one field per field number, ordered by number, and the numbers are
/// exactly those of the fields consolidated.
pub proof fn lemma_consolidate(s: Seq<ProtobufFieldView>)
    ensures
        strictly_ordered(spec_consolidate(s)),
        forall|n: u32| #[trigger] has_num(spec_consolidate(s), n) <==> has_num(s, n),
    decreases s.len(),
{
    if s.len() > 0 {
        let d = s.drop_last();
        lemma_consolidate(d);
        lemma_add_field(spec_consolidate(d), s.last());
        let c = spec_consolidate(s);
        assert forall|n: u32| #[trigger] has_num(c, n) <==> has_num(s, n) by {
            assert(has_num(spec_consolidate(d), n) <==> has_num(d, n));
            if exists|i: int| 0 <= i < s.len() && #[trigger] s[i].field_num == n {
                let i = choose|i: int| 0 <= i < s.len() && #[trigger] s[i].field_num == n;
                if i < s.len() - 1 {
                    assert(d[i].field_num == n);
                }
            }
            if exists|i: int| 0 <= i < d.len() && #[trigger] d[i].field_num == n {
                let i = choose|i: int| 0 <= i < d.len() && #[trigger] d[i].field_num == n;
                assert(s[i].field_num == n);
            }
        }
    }
}

/// Adds a field to fields consolidated by number.
fn add_field(fields: &mut Vec<ProtobufField>, f: ProtobufField)
    requires
        strictly_ordered(fields_view(old(fields)@)),
    ensures
        fields_view(final(fields)@) == spec_add_field(fields_view(old(fields)@), f@),
{
    let ghost views = fields_view(fields@);
    let mut i: usize = 0;
    while i < fields.len()
        invariant
            views == fields_view(fields@),
            views == fields_view(old(fields)@),
            i <= fields@.len(),
            forall|k: int| 0 <= k < i ==> (#[trigger] views[k]).field_num != f.field_num,
        decreases fields@.len() - i,
    {
        assert(views[i as int] == fields@[i as int]@);
        if fields[i].field_num == f.field_num {
            proof {
                lemma_find_num_first(views, f.field_num, i as int);
            }
            let ghost before = fields@;
            let mut existing = fields.remove(i);
            let ghost old_extra = existing.additional_data@;
            existing.additional_data.push(f.data);
            assert(existing@.additional_data =~= views[i as int].additional_data.push(f@.data)) by {
                assert(existing.additional_data@ == old_extra.push(f.data));
            }
            fields.insert(i, existing);
            proof {
                assert(fields@ =~= before.update(i as int, existing));
                assert(fields_view(fields@) =~= views.update(
                    i as int,
                    ProtobufFieldView { additional_data: views[i as int].additional_data.push(f@.data), ..views[i as int] },
                ));
                assert(spec_find_num(views, f@.field_num) == Some(i as int));
            }
            return;
        }
        i = i + 1;
    }
    proof {
        lemma_find_num_none(views, f.field_num);
    }
    insert_sorted(fields, f);
}

impl FileDescriptorSet {
    /// A copy of the descriptor set.
    pub fn duplicate(&self) -> (r: FileDescriptorSet)
        ensures
            r@ == self@,
    {
        let mut files: Vec<FileDescriptor> = Vec::new();
        let mut i: usize = 0;
        while i < self.files.len()
            invariant
                i <= self.files@.len(),
                files@.len() == i,
                forall|j: int| 0 <= j < i ==> #[trigger] files@[j]@ == self.files@[j]@,
            decreases self.files@.len() - i,
        {
            files.push(self.files[i].duplicate());
            i = i + 1;
        }
        let r = FileDescriptorSet { files };
        assert(r@ =~= self@);
        r
    }
}

impl View for DynamicMessage {
    type V = (Seq<ProtobufFieldView>, Seq<FileDescriptorView>);

    /// The message's fields and the descriptors of its types.
    closed spec fn view(&self) -> Self::V {
        (fields_view(self.fields@), self.descriptors@)
    }
}

impl DynamicMessage {
    /// The message's fields are ordered by field number, one per number.
    pub closed spec fn wf(&self) -> bool {
        strictly_ordered(fields_view(self.fields@))
    }

    /// Every message keeps its fields ordered by field number, one per number.
    #[verifier::type_invariant]
    spec fn fields_by_number(self) -> bool {
        self.wf()
    }

    /// A message of the given fields: fields with the same number are consolidated into the first
    /// of them, the values of the others joining its additional values in order.
    pub fn new(field_data: &[ProtobufField], descriptors: &FileDescriptorSet) -> (r: DynamicMessage)
        ensures
            r.wf(),
            r@.0 == spec_consolidate(fields_view(field_data@)),
            r@.1 == descriptors@,
    {
        let ghost input = fields_view(field_data@);
        let mut fields: Vec<ProtobufField> = Vec::new();
        let mut i: usize = 0;
        assert(input.take(0) =~= Seq::<ProtobufFieldView>::empty());
        while i < field_data.len()
            invariant
                i <= field_data@.len(),
                input == fields_view(field_data@),
                fields_view(fields@) == spec_consolidate(input.take(i as int)),
            decreases field_data@.len() - i,
        {
            proof {
                lemma_consolidate(input.take(i as int));
            }
            let f = field_data[i].duplicate();
            add_field(&mut fields, f);
            proof {
                let next = input.take(i + 1);
                assert(next.drop_last() =~= input.take(i as int));
                assert(next.last() == field_data@[i as int]@);
            }
            i = i + 1;
        }
        assert(input.take(field_data@.len() as int) =~= input);
        proof {
            lemma_consolidate(input);
        }
        DynamicMessage { fields, descriptors: descriptors.duplicate() }
    }

    /// The fields of the message, ordered by field number.
    pub fn proto_fields(&self) -> (r: Vec<ProtobufField>)
        ensures
            fields_view(r@) == self@.0,
    {
        let mut r: Vec<ProtobufField> = Vec::new();
        let mut i: usize = 0;
        while i < self.fields.len()
            invariant
                i <= self.fields@.len(),
                r@.len() == i,
                forall|j: int| 0 <= j < i ==> #[trigger] r@[j]@ == self.fields@[j]@,
            decreases self.fields@.len() - i,
        {
            r.push(self.fields[i].duplicate());
            i = i + 1;
        }
        assert(fields_view(r@) =~= fields_view(self.fields@));
        r
    }
}

// ---------------------------------------------------------------------------------------------
// Flattening
// ---------------------------------------------------------------------------------------------

/// A field, followed, where it is a repeated field with additional values, by a field for each
/// additional value.
pub open spec fn spec_expand(f: ProtobufFieldView) -> Seq<ProtobufFieldView> {
    if f.descriptor.is_repeated() && f.additional_data.len() > 0 {
        seq![f] + f.additional_data.map_values(|d: FieldDataView| ProtobufFieldView { data: d, additional_data: Seq::empty(), ..f })
    } else {
        seq![f]
    }
}

/// The fields with the values of repeated fields expanded, in order.
pub open spec fn spec_flatten(fields: Seq<ProtobufFieldView>) -> Seq<ProtobufFieldView>
    decreases fields.len(),
{
    if fields.len() == 0 {
        Seq::empty()
    } else {
        spec_flatten(fields.drop_last()) + spec_expand(fields.last())
    }
}

impl DynamicMessage {
    /// The fields of the message with the values of repeated fields expanded: each additional
    /// value of a repeated field follows the field as a field of its own.
    pub fn flatten_fields(&self) -> (r: Vec<ProtobufField>)
        ensures
            fields_view(r@) == spec_flatten(self@.0),
    {
        let ghost views = fields_view(self.fields@);
        let mut r: Vec<ProtobufField> = Vec::new();
        let mut i: usize = 0;
        assert(views.take(0) =~= Seq::<ProtobufFieldView>::empty());
        while i < self.fields.len()
            invariant
                i <= self.fields@.len(),
                views == fields_view(self.fields@),
                fields_view(r@) == spec_flatten(views.take(i as int)),
            decreases self.fields@.len() - i,
        {
            let f = &self.fields[i];
            let ghost before = fields_view(r@);
            let ghost old_r = r@;
            let g = f.duplicate();
            r.push(g);
            assert(r@ == old_r.push(g));
            assert(fields_view(r@) =~= before + seq![f@]);
            if f.repeated_field() && f.additional_data.len() > 0 {
                let mut k: usize = 0;
                while k < f.additional_data.len()
                    invariant
                        k <= f.additional_data@.len(),
                        i < self.fields@.len(),
                        f == &self.fields@[i as int],
                        fields_view(r@) == before + seq![f@] + f@.additional_data.take(k as int).map_values(
                            |d: FieldDataView| ProtobufFieldView { data: d, additional_data: Seq::empty(), ..f@ },
                        ),
                    decreases f.additional_data@.len() - k,
                {
                    let ghost old_r = r@;
                    let g = f.clone_with_data(&f.additional_data[k]);
                    r.push(g);
                    assert(f@.additional_data[k as int] == f.additional_data@[k as int]@);
                    assert(r@ == old_r.push(g));
                    assert(fields_view(r@) == fields_view(old_r).push(g@));
                    assert(fields_view(r@) =~= before + seq![f@] + f@.additional_data.take(k + 1).map_values(
                        |d: FieldDataView| ProtobufFieldView { data: d, additional_data: Seq::empty(), ..f@ },
                    ));
                    k = k + 1;
                }
                assert(f@.additional_data.take(k as int) =~= f@.additional_data);
            }
            proof {
                let next = views.take(i + 1);
                assert(next.drop_last() =~= views.take(i as int));
                assert(next.last() == f@);
                assert(fields_view(r@) =~= spec_flatten(views.take(i as int)) + spec_expand(f@));
            }
            i = i + 1;
        }
        assert(views.take(self.fields@.len() as int) =~= views);
        r
    }
}

// ---------------------------------------------------------------------------------------------
// Writing
// ---------------------------------------------------------------------------------------------

/// The bytes of two writes one after the other; the first error where there is one.
pub open spec fn wjoin(a: Result<Seq<u8>, WriteError>, b: Result<Seq<u8>, WriteError>) -> Result<Seq<u8>, WriteError> {
    match a {
        Ok(x) => match b {
            Ok(y) => Ok(x + y),
            Err(e) => Err(e),
        },
        Err(e) => Err(e),
    }
}

/// The bytes after the key for value `d` of field `f`, as the field's wire type has it. Unknown
/// data is written as it is.
pub open spec fn spec_write_payload(f: ProtobufFieldView, d: FieldDataView) -> Result<Seq<u8>, WriteError> {
    let n = f.field_num;
    match f.wire_type {
        WireType::Varint => match d {
            FieldDataView::Boolean(b) => Ok(spec_encode_varint(if b { 1 } else { 0 })),
            FieldDataView::UInteger32(x) => Ok(spec_encode_varint(x as u64)),
            FieldDataView::Integer32(x) => Ok(spec_encode_varint(x as u64)),
            FieldDataView::UInteger64(x) => Ok(spec_encode_varint(x)),
            FieldDataView::Integer64(x) => Ok(spec_encode_varint(x as u64)),
            FieldDataView::Enum(x, _) => Ok(spec_encode_varint(x as u64)),
            FieldDataView::Unknown(b) => Ok(b),
            _ => Err(WriteError::MismatchedData { field_num: n }),
        },
        WireType::SixtyFourBit => match d {
            FieldDataView::UInteger64(x) => Ok(spec_u64_to_le_bytes(x)),
            FieldDataView::Integer64(x) => Ok(spec_u64_to_le_bytes(x as u64)),
            FieldDataView::Double(bits) => Ok(spec_u64_to_le_bytes(bits)),
            FieldDataView::Unknown(b) => Ok(b),
            _ => Err(WriteError::MismatchedData { field_num: n }),
        },
        WireType::LengthDelimited => match d {
            FieldDataView::String(s) => Ok(ld(encode_utf8(s))),
            FieldDataView::Bytes(b) => Ok(ld(b)),
            FieldDataView::Message(m, _) => Ok(ld(m)),
            FieldDataView::Unknown(b) => Ok(b),
            _ => Err(WriteError::MismatchedData { field_num: n }),
        },
        WireType::ThirtyTwoBit => match d {
            FieldDataView::UInteger32(x) => Ok(spec_u32_to_le_bytes(x)),
            FieldDataView::Integer32(x) => Ok(spec_u32_to_le_bytes(x as u32)),
            FieldDataView::Float(bits) => Ok(spec_u32_to_le_bytes(bits)),
            FieldDataView::Unknown(b) => Ok(b),
            _ => Err(WriteError::MismatchedData { field_num: n }),
        },
        _ => Err(WriteError::GroupsNotSupported { field_num: n }),
    }
}

/// Value `d` of field `f` written: the field's key, then the payload.
pub open spec fn spec_write_field(f: ProtobufFieldView, d: FieldDataView) -> Result<Seq<u8>, WriteError> {
    if !(1 <= f.field_num <= MAX_TAG) {
        Err(WriteError::InvalidTag { field_num: f.field_num })
    } else {
        match spec_write_payload(f, d) {
            Ok(p) => Ok(spec_encode_key(f.field_num, f.wire_type) + p),
            Err(e) => Err(e),
        }
    }
}

/// Each of the values written as field `f`, in order.
pub open spec fn spec_write_values(f: ProtobufFieldView, ds: Seq<FieldDataView>) -> Result<Seq<u8>, WriteError>
    decreases ds.len(),
{
    if ds.len() == 0 {
        Ok(Seq::empty())
    } else {
        wjoin(spec_write_values(f, ds.drop_last()), spec_write_field(f, ds.last()))
    }
}

/// A field written: its value, then, for a repeated field, its additional values.
pub open spec fn spec_write_all(f: ProtobufFieldView) -> Result<Seq<u8>, WriteError> {
    wjoin(
        spec_write_field(f, f.data),
        if f.descriptor.is_repeated() && f.additional_data.len() > 0 {
            spec_write_values(f, f.additional_data)
        } else {
            Ok(Seq::empty())
        },
    )
}

/// The fields written in order.
pub open spec fn spec_write_fields(fields: Seq<ProtobufFieldView>) -> Result<Seq<u8>, WriteError>
    decreases fields.len(),
{
    if fields.len() == 0 {
        Ok(Seq::empty())
    } else {
        wjoin(spec_write_fields(fields.drop_last()), spec_write_all(fields.last()))
    }
}

/// `r` is what appending the write `s` gives.
pub open spec fn written(r: Result<(), WriteError>, s: Result<Seq<u8>, WriteError>, before: Seq<u8>, after: Seq<u8>) -> bool {
    match s {
        Ok(b) => r is Ok && after == before + b,
        Err(e) => r == Err::<(), WriteError>(e),
    }
}

proof fn lemma_values_prefix_err(f: ProtobufFieldView, ds: Seq<FieldDataView>, i: int, e: WriteError)
    requires
        0 <= i <= ds.len(),
        spec_write_values(f, ds.take(i)) == Err::<Seq<u8>, WriteError>(e),
    ensures
        spec_write_values(f, ds) == Err::<Seq<u8>, WriteError>(e),
    decreases ds.len() - i,
{
    if i == ds.len() {
        assert(ds.take(i) =~= ds);
    } else {
        assert(ds.take(i + 1).drop_last() =~= ds.take(i));
        lemma_values_prefix_err(f, ds, i + 1, e);
    }
}

proof fn lemma_fields_prefix_err(fields: Seq<ProtobufFieldView>, i: int, e: WriteError)
    requires
        0 <= i <= fields.len(),
        spec_write_fields(fields.take(i)) == Err::<Seq<u8>, WriteError>(e),
    ensures
        spec_write_fields(fields) == Err::<Seq<u8>, WriteError>(e),
    decreases fields.len() - i,
{
    if i == fields.len() {
        assert(fields.take(i) =~= fields);
    } else {
        assert(fields.take(i + 1).drop_last() =~= fields.take(i));
        lemma_fields_prefix_err(fields, i + 1, e);
    }
}

/// Writes the payload for value `d` of field `f`.
fn write_payload(f: &ProtobufField, d: &ProtobufFieldData, buf: &mut Vec<u8>) -> (r: Result<(), WriteError>)
    ensures
        written(r, spec_write_payload(f@, d@), old(buf)@, final(buf)@),
{
    let n = f.field_num;
    let ghost before = buf@;
    match f.wire_type {
        WireType::Varint => match d {
            ProtobufFieldData::Boolean(b) => encode_varint(if *b { 1 } else { 0 }, buf),
            ProtobufFieldData::UInteger32(x) => encode_varint(*x as u64, buf),
            ProtobufFieldData::Integer32(x) => encode_varint(*x as u64, buf),
            ProtobufFieldData::UInteger64(x) => encode_varint(*x, buf),
            ProtobufFieldData::Integer64(x) => encode_varint(*x as u64, buf),
            ProtobufFieldData::Enum(x, _) => encode_varint(*x as u64, buf),
            ProtobufFieldData::Unknown(b) => buf.extend_from_slice(b.as_slice()),
            _ => {
                return Err(WriteError::MismatchedData { field_num: n });
            },
        },
        WireType::SixtyFourBit => match d {
            ProtobufFieldData::UInteger64(x) => buf.extend_from_slice(u64_to_le_bytes(*x).as_slice()),
            ProtobufFieldData::Integer64(x) => buf.extend_from_slice(u64_to_le_bytes(*x as u64).as_slice()),
            ProtobufFieldData::Double(bits) => buf.extend_from_slice(u64_to_le_bytes(*bits).as_slice()),
            ProtobufFieldData::Unknown(b) => buf.extend_from_slice(b.as_slice()),
            _ => {
                return Err(WriteError::MismatchedData { field_num: n });
            },
        },
        WireType::LengthDelimited => match d {
            ProtobufFieldData::String(s) => {
                let bytes = slice_to_vec(s.as_str().as_bytes());
                encode_varint(bytes.len() as u64, buf);
                buf.extend_from_slice(bytes.as_slice());
            },
            ProtobufFieldData::Bytes(b) => {
                encode_varint(b.len() as u64, buf);
                buf.extend_from_slice(b.as_slice());
            },
            ProtobufFieldData::Message(m, _) => {
                encode_varint(m.len() as u64, buf);
                buf.extend_from_slice(m.as_slice());
            },
            ProtobufFieldData::Unknown(b) => buf.extend_from_slice(b.as_slice()),
            _ => {
                return Err(WriteError::MismatchedData { field_num: n });
            },
        },
        WireType::ThirtyTwoBit => match d {
            ProtobufFieldData::UInteger32(x) => buf.extend_from_slice(u32_to_le_bytes(*x).as_slice()),
            ProtobufFieldData::Integer32(x) => buf.extend_from_slice(u32_to_le_bytes(*x as u32).as_slice()),
            ProtobufFieldData::Float(bits) => buf.extend_from_slice(u32_to_le_bytes(*bits).as_slice()),
            ProtobufFieldData::Unknown(b) => buf.extend_from_slice(b.as_slice()),
            _ => {
                return Err(WriteError::MismatchedData { field_num: n });
            },
        },
        _ => {
            return Err(WriteError::GroupsNotSupported { field_num: n });
        },
    }
    assert(buf@ =~= before + spec_write_payload(f@, d@)->Ok_0);
    Ok(())
}

/// Writes value `d` of field `f`: the field's key, then the payload.
fn write_field(f: &ProtobufField, d: &ProtobufFieldData, buf: &mut Vec<u8>) -> (r: Result<(), WriteError>)
    ensures
        written(r, spec_write_field(f@, d@), old(buf)@, final(buf)@),
{
    if f.field_num < 1 || f.field_num > MAX_TAG {
        return Err(WriteError::InvalidTag { field_num: f.field_num });
    }
    let ghost before = buf@;
    encode_key(f.field_num, f.wire_type, buf);
    let ghost mid = buf@;
    let r = write_payload(f, d, buf);
    proof {
        if r is Ok {
            assert(buf@ =~= before + (spec_encode_key(f.field_num, f.wire_type) + spec_write_payload(f@, d@)->Ok_0));
        }
    }
    r
}

/// Writes a field: its value, then, for a repeated field, its additional values.
fn write_all(f: &ProtobufField, buf: &mut Vec<u8>) -> (r: Result<(), WriteError>)
    ensures
        written(r, spec_write_all(f@), old(buf)@, final(buf)@),
{
    let ghost before = buf@;
    let first = write_field(f, &f.data, buf);
    if let Err(e) = first {
        return Err(e);
    }
    let ghost mid = buf@;
    if f.repeated_field() && f.additional_data.len() > 0 {
        let ghost ds = f@.additional_data;
        let mut i: usize = 0;
        assert(ds.take(0) =~= Seq::<FieldDataView>::empty());
        assert(mid + Seq::<u8>::empty() =~= mid);
        while i < f.additional_data.len()
            invariant
                i <= f.additional_data@.len(),
                ds == f@.additional_data,
                spec_write_field(f@, f@.data) is Ok,
                f@.descriptor.is_repeated() && f@.additional_data.len() > 0,
                match spec_write_values(f@, ds.take(i as int)) {
                    Ok(b) => buf@ == mid + b,
                    Err(_) => false,
                },
            decreases f.additional_data@.len() - i,
        {
            let ghost done = spec_write_values(f@, ds.take(i as int))->Ok_0;
            let r = write_field(f, &f.additional_data[i], buf);
            assert(ds.take(i + 1).drop_last() =~= ds.take(i as int));
            assert(ds.take(i + 1).last() == f.additional_data@[i as int]@);
            match r {
                Err(e) => {
                    proof {
                        lemma_values_prefix_err(f@, ds, i + 1, e);
                    }
                    return Err(e);
                },
                Ok(()) => {
                    proof {
                        let w = spec_write_field(f@, ds[i as int])->Ok_0;
                        assert(buf@ =~= mid + (done + w));
                    }
                },
            }
            i = i + 1;
        }
        assert(ds.take(ds.len() as int) =~= ds);
        assert(buf@ =~= before + (spec_write_field(f@, f@.data)->Ok_0 + spec_write_values(f@, ds)->Ok_0));
    } else {
        assert(buf@ =~= before + (spec_write_field(f@, f@.data)->Ok_0 + Seq::<u8>::empty()));
    }
    Ok(())
}

/// Encodes fields into the buffer, in order, each repeated field's additional values after its
/// value.
fn write_fields(fields: &Vec<ProtobufField>, buffer: &mut Vec<u8>) -> (r: Result<(), WriteError>)
    ensures
        written(r, spec_write_fields(fields_view(fields@)), old(buffer)@, final(buffer)@),
{
    let ghost views = fields_view(fields@);
    let ghost start = buffer@;
    let mut i: usize = 0;
    assert(views.take(0) =~= Seq::<ProtobufFieldView>::empty());
    assert(start + Seq::<u8>::empty() =~= start);
    while i < fields.len()
        invariant
            i <= fields@.len(),
            views == fields_view(fields@),
            match spec_write_fields(views.take(i as int)) {
                Ok(b) => buffer@ == start + b,
                Err(_) => false,
            },
        decreases fields@.len() - i,
    {
        let ghost done = spec_write_fields(views.take(i as int))->Ok_0;
        let r = write_all(&fields[i], buffer);
        assert(views.take(i + 1).drop_last() =~= views.take(i as int));
        assert(views.take(i + 1).last() == fields@[i as int]@);
        match r {
            Err(e) => {
                proof {
                    lemma_fields_prefix_err(views, i + 1, e);
                }
                return Err(e);
            },
            Ok(()) => {
                proof {
                    let w = spec_write_all(views[i as int])->Ok_0;
                    assert(buffer@ =~= start + (done + w));
                }
            },
        }
        i = i + 1;
    }
    assert(views.take(views.len() as int) =~= views);
    Ok(())
}

impl DynamicMessage {
    /// Encodes the message into the buffer: the fields in order of field number, each repeated
    /// field's additional values after its value.
    pub fn write_to(&self, buffer: &mut Vec<u8>) -> (r: Result<(), WriteError>)
        ensures
            written(r, spec_write_fields(self@.0), old(buffer)@, final(buffer)@),
    {
        write_fields(&self.fields, buffer)
    }
}

/// A gRPC codec for the messages of an interaction: requests are decoded with the descriptor of
/// the input message, responses encoded from their fields.
#[derive(Debug)]
pub struct PactCodec {
    pub input_message: MessageDescriptor,
    pub file_descriptor_set: FileDescriptorSet,
}

impl PactCodec {
    /// A codec for a service method with the given input and output messages.
    pub fn new(file: &FileDescriptorSet, input_message: &MessageDescriptor, output_message: &MessageDescriptor) -> (r: PactCodec)
        ensures
            r.file_descriptor_set@ == file@,
            r.input_message@ == input_message@,
    {
        PactCodec { file_descriptor_set: file.duplicate(), input_message: input_message.duplicate() }
    }

    /// The encoder of response messages (an encoder holds no state); the codec is left as it is.
    pub fn encoder(&mut self) -> (r: DynamicMessageEncoder)
        ensures
            *final(self) == *old(self),
    {
        DynamicMessageEncoder {}
    }

    /// The decoder of request messages.
    pub fn decoder(&mut self) -> (r: DynamicMessageDecoder)
        ensures
            r.descriptor@ == old(self).input_message@,
            r.file_descriptor_set@ == old(self).file_descriptor_set@,
            *final(self) == *old(self),
    {
        DynamicMessageDecoder::new(self)
    }
}

/// Decoder of request messages for a gRPC codec.
#[derive(Debug)]
pub struct DynamicMessageDecoder {
    pub descriptor: MessageDescriptor,
    pub file_descriptor_set: FileDescriptorSet,
}

impl DynamicMessageDecoder {
    /// A decoder for the input messages of the codec.
    pub fn new(codec: &PactCodec) -> (r: DynamicMessageDecoder)
        ensures
            r.descriptor@ == codec.input_message@,
            r.file_descriptor_set@ == codec.file_descriptor_set@,
    {
        DynamicMessageDecoder {
            descriptor: codec.input_message.duplicate(),
            file_descriptor_set: codec.file_descriptor_set.duplicate(),
        }
    }

    /// Decodes a message: its fields, consolidated by field number.
    pub fn decode(&mut self, src: &[u8]) -> (r: Result<DynamicMessage, crate::wire::DecodingError>)
        ensures
            *final(self) == *old(self),
            match spec_decode_message(src@, old(self).descriptor@, old(self).file_descriptor_set@) {
                Ok(fs) => (r matches Ok(m) && m.wf() && m@.0 == spec_consolidate(fs)
                    && m@.1 == old(self).file_descriptor_set@),
                Err(e) => r == Err::<DynamicMessage, crate::wire::DecodingError>(e),
            },
    {
        match decode_message(src, &self.descriptor, &self.file_descriptor_set) {
            Ok(fields) => Ok(DynamicMessage::new(fields.as_slice(), &self.file_descriptor_set)),
            Err(e) => Err(e),
        }
    }
}

/// Encoder of dynamic messages for a gRPC codec.
#[derive(Debug, Clone)]
pub struct DynamicMessageEncoder {}

impl DynamicMessageEncoder {
    /// Encodes the message into the buffer (see `DynamicMessage::write_to`).
    pub fn encode(&mut self, item: &DynamicMessage, dst: &mut Vec<u8>) -> (r: Result<(), WriteError>)
        ensures
            written(r, spec_write_fields(item@.0), old(dst)@, final(dst)@),
    {
        item.write_to(dst)
    }
}

// ---------------------------------------------------------------------------------------------
// Fields by path
// ---------------------------------------------------------------------------------------------

/// A segment of a path into a message, as in `$.child.values[1]`.
#[derive(Clone, Debug, PartialEq)]
pub enum PathToken {
    /// The root of the message (`$`).
    Root,
    /// A field, by name.
    Field(String),
    /// A value of a repeated field, by index.
    Index(usize),
    /// Any field (`*`).
    Star,
    /// Any value of a repeated field (`[*]`).
    StarIndex,
}

/// Why a path could not be followed.
#[derive(Clone, Copy, Debug, PartialEq, Eq, Structural)]
pub enum PathError {
    /// The path does not start at the root (`$`).
    NoRoot,
    /// The path ended before reaching a field.
    EndOfPath,
    /// No field of the message has the name.
    NoSuchField,
    /// Paths into enum values are not supported.
    EnumNotSupported,
    /// A segment after the field of a value that is not a message.
    NotAChildMessage,
    /// An index applied to a field that is not repeated, or followed by more segments.
    IndexOnNonRepeated,
    /// A segment that can not follow a field.
    SegmentNotApplicable,
    /// An index where a field name is expected.
    IndexNotSupported,
    /// `*` where a field name is expected.
    StarNotSupported,
    /// `[*]` where a field name is expected.
    StarIndexNotSupported,
    /// The embedded message could not be decoded.
    DecodeFailed(crate::wire::DecodingError),
    /// The embedded message could not be written back.
    WriteFailed(WriteError),
}

/// The index of the first field named `name`.
pub open spec fn spec_find_named(fields: Seq<ProtobufFieldView>, name: Seq<char>) -> Option<int>
    decreases fields.len(),
{
    if fields.len() == 0 {
        None
    } else if fields[0].field_name == name {
        Some(0)
    } else {
        match spec_find_named(fields.drop_first(), name) {
            Some(i) => Some(i + 1),
            None => None,
        }
    }
}

/// A field with a value set: with an index, the value at that index (0 is the field's value,
/// the others its additional values, which are filled up with copies of the field's value up to
/// the index where they are fewer); without one, the field's value. Without a value to set, the
/// field is unchanged.
pub open spec fn spec_apply(f: ProtobufFieldView, index: Option<usize>, set: Option<FieldDataView>) -> ProtobufFieldView {
    match set {
        None => f,
        Some(v) => match index {
            Some(k) => if k == 0 {
                ProtobufFieldView { data: v, ..f }
            } else if k - 1 < f.additional_data.len() {
                ProtobufFieldView { additional_data: f.additional_data.update(k - 1, v), ..f }
            } else {
                ProtobufFieldView {
                    additional_data: f.additional_data + Seq::new((k - 1 - f.additional_data.len()) as nat, |j: int| f.data)
                        + seq![v],
                    ..f
                }
            },
            None => ProtobufFieldView { data: v, ..f },
        },
    }
}

/// Setting a value at an index of a field: index 0 replaces the field's value and keeps its
/// additional values; an index `k` of 1 or more keeps the field's value and makes the `k`-th
/// value (additional value `k - 1`) the new one, keeping the other additional values, and where
/// there were fewer than `k - 1` additional values, filling the gap with copies of the field's
/// value. Without an index the field's value is replaced. The field's number, name, wire type and
/// descriptor are kept; without a value to set, nothing changes.
pub proof fn lemma_apply_sets_index(f: ProtobufFieldView, index: Option<usize>, v: FieldDataView)
    ensures
        spec_apply(f, index, None) == f,
        ({
            let g = spec_apply(f, index, Some(v));
            let n = f.additional_data.len();
            &&& g.field_num == f.field_num
            &&& g.field_name == f.field_name
            &&& g.wire_type == f.wire_type
            &&& g.descriptor == f.descriptor
            &&& (index matches Some(k) && k >= 1) ==> {
                let k = index->0 as int;
                &&& g.data == f.data
                &&& g.additional_data.len() == if k > n { k } else { n as int }
                &&& g.additional_data[k - 1] == v
                &&& forall|j: int| 0 <= j < n && j != k - 1 ==> g.additional_data[j] == f.additional_data[j]
                &&& forall|j: int| n <= j < k - 1 ==> g.additional_data[j] == f.data
            }
            &&& (index is None || index == Some(0usize)) ==> g.data == v && g.additional_data == f.additional_data
        }),
{
}

/// What a path reaching field `f` gives back: the field itself when fetching.
pub open spec fn found_of(f: ProtobufFieldView, set: Option<FieldDataView>) -> Option<ProtobufFieldView> {
    if set is None {
        Some(f)
    } else {
        None
    }
}

/// Follows a path (without its root) through the fields of a message, and through embedded
/// messages, to a field: fetches the field (`set` is `None`) or sets its value. Returns the
/// fields after the change, the outcome and the field fetched. An embedded message that the path
/// goes through is decoded, consolidated, changed and written back.
pub open spec fn spec_match_path(
    fields: Seq<ProtobufFieldView>,
    tokens: Seq<PathToken>,
    files: Seq<FileDescriptorView>,
    set: Option<FieldDataView>,
) -> (Seq<ProtobufFieldView>, Result<(), PathError>, Option<ProtobufFieldView>)
    decreases tokens.len(),
{
    if tokens.len() == 0 {
        (fields, Err(PathError::EndOfPath), None)
    } else {
        match tokens[0] {
            PathToken::Root => (fields, Ok(()), None),
            PathToken::Index(_) => (fields, Err(PathError::IndexNotSupported), None),
            PathToken::Star => (fields, Err(PathError::StarNotSupported), None),
            PathToken::StarIndex => (fields, Err(PathError::StarIndexNotSupported), None),
            PathToken::Field(name) => match spec_find_named(fields, name@) {
                None => (fields, Err(PathError::NoSuchField), None),
                Some(i) => {
                    let f = fields[i];
                    let rest = tokens.drop_first();
                    if rest.len() == 0 {
                        (fields.update(i, spec_apply(f, None, set)), Ok(()), found_of(f, set))
                    } else {
                        match f.data {
                            FieldDataView::Enum(_, _) => (fields, Err(PathError::EnumNotSupported), None),
                            FieldDataView::Message(data, desc) => match spec_decode_message(data, desc, files) {
                                Err(e) => (fields, Err(PathError::DecodeFailed(e)), None),
                                Ok(cf) => {
                                    let (child, r, found) = spec_match_path(spec_consolidate(cf), rest, files, set);
                                    match r {
                                        Err(e) => (fields, Err(e), found),
                                        Ok(()) => match spec_write_fields(child) {
                                            Ok(bytes) => (
                                                fields.update(i, ProtobufFieldView { data: FieldDataView::Message(bytes, desc), ..f }),
                                                Ok(()),
                                                found,
                                            ),
                                            Err(e) => (fields, Err(PathError::WriteFailed(e)), found),
                                        },
                                    }
                                },
                            },
                            _ => {
                                let after = rest.drop_first();
                                match rest[0] {
                                    PathToken::Star | PathToken::StarIndex => if after.len() == 0 {
                                        (fields.update(i, spec_apply(f, None, set)), Ok(()), found_of(f, set))
                                    } else {
                                        (fields, Err(PathError::NotAChildMessage), None)
                                    },
                                    PathToken::Index(k) => if f.descriptor.is_repeated() && after.len() == 0 {
                                        (fields.update(i, spec_apply(f, Some(k), set)), Ok(()), found_of(f, set))
                                    } else {
                                        (fields, Err(PathError::IndexOnNonRepeated), None)
                                    },
                                    _ => (fields, Err(PathError::SegmentNotApplicable), None),
                                }
                            },
                        }
                    }
                },
            },
        }
    }
}

/// Setting `name[k]` of a message (a repeated field that is not an enum or a message) changes
/// that field alone, as setting index `k` of it does (see `lemma_apply_sets_index`).
pub proof fn lemma_set_repeated_by_path(
    fields: Seq<ProtobufFieldView>,
    name: String,
    k: usize,
    i: int,
    files: Seq<FileDescriptorView>,
    v: FieldDataView,
)
    requires
        spec_find_named(fields, name@) == Some(i),
        0 <= i < fields.len(),
        fields[i].descriptor.is_repeated(),
        !(fields[i].data is Enum),
        !(fields[i].data is Message),
    ensures
        ({
            let m = spec_match_path(fields, seq![PathToken::Field(name), PathToken::Index(k)], files, Some(v));
            &&& m.1 == Ok::<(), PathError>(())
            &&& m.0 == fields.update(i, spec_apply(fields[i], Some(k), Some(v)))
        }),
{
    let tokens = seq![PathToken::Field(name), PathToken::Index(k)];
    assert(tokens.drop_first() =~= seq![PathToken::Index(k)]);
    assert(tokens.drop_first().drop_first() =~= Seq::<PathToken>::empty());
}

/// The view of an optional value to set.
pub open spec fn set_view(set: Option<ProtobufFieldData>) -> Option<FieldDataView> {
    match set {
        Some(d) => Some(d@),
        None => None,
    }
}

/// The view of an optional field.
pub open spec fn field_opt_view(f: Option<ProtobufField>) -> Option<ProtobufFieldView> {
    match f {
        Some(x) => Some(x@),
        None => None,
    }
}

proof fn lemma_find_named_first(fields: Seq<ProtobufFieldView>, name: Seq<char>, i: int)
    requires
        0 <= i < fields.len(),
        fields[i].field_name == name,
        forall|k: int| 0 <= k < i ==> (#[trigger] fields[k]).field_name != name,
    ensures
        spec_find_named(fields, name) == Some(i),
    decreases i,
{
    if i > 0 {
        let rest = fields.drop_first();
        assert forall|k: int| 0 <= k < i - 1 implies (#[trigger] rest[k]).field_name != name by {
            assert(rest[k] == fields[k + 1]);
        }
        lemma_find_named_first(rest, name, i - 1);
    }
}

proof fn lemma_find_named_none(fields: Seq<ProtobufFieldView>, name: Seq<char>)
    requires
        forall|k: int| 0 <= k < fields.len() ==> (#[trigger] fields[k]).field_name != name,
    ensures
        spec_find_named(fields, name) is None,
    decreases fields.len(),
{
    if fields.len() > 0 {
        let rest = fields.drop_first();
        assert forall|k: int| 0 <= k < rest.len() implies (#[trigger] rest[k]).field_name != name by {
            assert(rest[k] == fields[k + 1]);
        }
        lemma_find_named_none(rest, name);
    }
}

/// Sets a value of a field (see `spec_apply`).
fn apply_value(f: &mut ProtobufField, index: Option<usize>, set: &Option<ProtobufFieldData>)
    ensures
        final(f)@ == spec_apply(old(f)@, index, set_view(*set)),
{
    match set {
        None => {},
        Some(v) => match index {
            Some(k) => if k == 0 {
                f.data = v.duplicate();
            } else if k - 1 < f.additional_data.len() {
                let ghost before = f@;
                f.additional_data.set(k - 1, v.duplicate());
                assert(f@.additional_data =~= before.additional_data.update(k - 1, v@));
            } else {
                let ghost before = f@;
                let ghost fill = Seq::new((k - 1 - before.additional_data.len()) as nat, |j: int| before.data);
                let start = f.additional_data.len();
                while f.additional_data.len() < k - 1
                    invariant
                        start == before.additional_data.len(),
                        start <= f.additional_data@.len() <= k - 1,
                        f@.data == before.data,
                        f@.field_num == before.field_num,
                        f@.field_name == before.field_name,
                        f@.wire_type == before.wire_type,
                        f@.descriptor == before.descriptor,
                        f@.additional_data == before.additional_data + fill.take(f.additional_data@.len() - start),
                        k >= 1,
                        fill == Seq::new((k - 1 - start) as nat, |j: int| before.data),
                    decreases k - 1 - f.additional_data@.len(),
                {
                    let ghost len = f.additional_data@.len();
                    let ghost old_vec = f.additional_data@;
                    let ghost old_view = f@.additional_data;
                    let d = f.data.duplicate();
                    f.additional_data.push(d);
                    assert(f.additional_data@ == old_vec.push(d));
                    assert(f@.additional_data =~= old_view.push(d@));
                    assert(fill.take(len + 1 - start) =~= fill.take(len - start).push(before.data));
                    assert(f@.additional_data =~= before.additional_data + fill.take(len + 1 - start));
                }
                assert(fill.take(k - 1 - start) =~= fill);
                f.additional_data.push(v.duplicate());
                assert(f@.additional_data =~= before.additional_data + fill + seq![v@]);
            },
            None => {
                f.data = v.duplicate();
            },
        },
    }
}

/// Finds the first field named `name`.
fn find_named(fields: &Vec<ProtobufField>, name: &String) -> (r: Option<usize>)
    ensures
        match r {
            Some(i) => i < fields@.len() && spec_find_named(fields_view(fields@), name@) == Some(i as int),
            None => spec_find_named(fields_view(fields@), name@) is None,
        },
{
    let ghost views = fields_view(fields@);
    let mut i: usize = 0;
    while i < fields.len()
        invariant
            i <= fields@.len(),
            views == fields_view(fields@),
            forall|k: int| 0 <= k < i ==> (#[trigger] views[k]).field_name != name@,
        decreases fields@.len() - i,
    {
        assert(views[i as int] == fields@[i as int]@);
        if fields[i].field_name == *name {
            proof {
                lemma_find_named_first(views, name@, i as int);
            }
            return Some(i);
        }
        i = i + 1;
    }
    proof {
        lemma_find_named_none(views, name@);
    }
    None
}

/// Following a path changes no field numbers.
pub proof fn lemma_match_path_keeps_numbers(
    fields: Seq<ProtobufFieldView>,
    tokens: Seq<PathToken>,
    files: Seq<FileDescriptorView>,
    set: Option<FieldDataView>,
)
    ensures
        spec_match_path(fields, tokens, files, set).0.len() == fields.len(),
        forall|k: int| 0 <= k < fields.len() ==> (#[trigger] spec_match_path(fields, tokens, files, set).0[k]).field_num == fields[k].field_num,
{
    if tokens.len() > 0 {
        if let PathToken::Field(name) = tokens[0] {
            lemma_find_named_range(fields, name@);
            if let Some(i) = spec_find_named(fields, name@) {
                let f = fields[i];
                assert(spec_apply(f, None, set).field_num == f.field_num);
                if let PathToken::Index(k) = tokens.drop_first()[0] {
                    assert(spec_apply(f, Some(k), set).field_num == f.field_num);
                }
            }
        }
    }
}

proof fn lemma_find_named_range(fields: Seq<ProtobufFieldView>, name: Seq<char>)
    ensures
        spec_find_named(fields, name) matches Some(i) ==> 0 <= i < fields.len(),
    decreases fields.len(),
{
    if fields.len() > 0 {
        lemma_find_named_range(fields.drop_first(), name);
    }
}

/// Changes field `i` of the fields with `apply_value`.
fn apply_at(fields: &mut Vec<ProtobufField>, i: usize, index: Option<usize>, set: &Option<ProtobufFieldData>)
    requires
        i < old(fields)@.len(),
    ensures
        fields_view(final(fields)@) == fields_view(old(fields)@).update(i as int, spec_apply(old(fields)@[i as int]@, index, set_view(*set))),
{
    let ghost before = fields@;
    let mut f = fields.remove(i);
    apply_value(&mut f, index, set);
    fields.insert(i, f);
    assert(fields@ =~= before.update(i as int, f));
    assert(fields_view(fields@) =~= fields_view(before).update(i as int, f@));
}

/// Follows a path (from `tokens[pos]` on) through the fields, fetching or setting the field it
/// reaches (see `spec_match_path`).
#[verifier::rlimit(50)]
fn match_path(
    fields: &mut Vec<ProtobufField>,
    tokens: &Vec<PathToken>,
    pos: usize,
    descriptors: &FileDescriptorSet,
    set: &Option<ProtobufFieldData>,
) -> (r: (Result<(), PathError>, Option<ProtobufField>))
    requires
        pos <= tokens@.len(),
    ensures
        fields_view(final(fields)@) == spec_match_path(fields_view(old(fields)@), tokens@.skip(pos as int), descriptors@, set_view(*set)).0,
        r.0 == spec_match_path(fields_view(old(fields)@), tokens@.skip(pos as int), descriptors@, set_view(*set)).1,
        field_opt_view(r.1) == spec_match_path(fields_view(old(fields)@), tokens@.skip(pos as int), descriptors@, set_view(*set)).2,
    decreases tokens@.len() - pos,
{
    let ghost toks = tokens@.skip(pos as int);
    let ghost views = fields_view(fields@);
    if pos >= tokens.len() {
        return (Err(PathError::EndOfPath), None);
    }
    assert(toks[0] == tokens@[pos as int]);
    assert(toks.drop_first() =~= tokens@.skip(pos + 1));
    let name = match &tokens[pos] {
        PathToken::Root => {
            return (Ok(()), None);
        },
        PathToken::Index(_) => {
            return (Err(PathError::IndexNotSupported), None);
        },
        PathToken::Star => {
            return (Err(PathError::StarNotSupported), None);
        },
        PathToken::StarIndex => {
            return (Err(PathError::StarIndexNotSupported), None);
        },
        PathToken::Field(name) => name,
    };
    let i = match find_named(fields, name) {
        None => {
            return (Err(PathError::NoSuchField), None);
        },
        Some(i) => i,
    };
    assert(views[i as int] == fields@[i as int]@);
    if pos + 1 >= tokens.len() {
        let found = if set.is_none() {
            Some(fields[i].duplicate())
        } else {
            None
        };
        apply_at(fields, i, None, set);
        return (Ok(()), found);
    }
    assert(toks.drop_first()[0] == tokens@[pos + 1]);
    assert(toks.drop_first().drop_first() =~= tokens@.skip(pos + 2));
    let is_enum = match &fields[i].data {
        ProtobufFieldData::Enum(_, _) => true,
        _ => false,
    };
    if is_enum {
        return (Err(PathError::EnumNotSupported), None);
    }
    let message = match &fields[i].data {
        ProtobufFieldData::Message(b, d) => Some((slice_to_vec(b.as_slice()), d.duplicate())),
        _ => None,
    };
    match message {
        Some((bytes, desc)) => {
            let decoded = match decode_message(bytes.as_slice(), &desc, descriptors) {
                Err(e) => {
                    return (Err(PathError::DecodeFailed(e)), None);
                },
                Ok(v) => v,
            };
            let child = DynamicMessage::new(decoded.as_slice(), descriptors);
            let mut child_fields = child.proto_fields();
            let (res, found) = match_path(&mut child_fields, tokens, pos + 1, descriptors, set);
            if let Err(e) = res {
                return (Err(e), found);
            }
            let mut out: Vec<u8> = Vec::new();
            match write_fields(&child_fields, &mut out) {
                Err(e) => (Err(PathError::WriteFailed(e)), found),
                Ok(()) => {
                    let ghost before = fields@;
                    let mut f = fields.remove(i);
                    f.data = ProtobufFieldData::Message(out, desc);
                    fields.insert(i, f);
                    assert(fields@ =~= before.update(i as int, f));
                    assert(fields_view(fields@) =~= fields_view(before).update(i as int, f@));
                    (Ok(()), found)
                },
            }
        },
        None => {
            let after_empty = pos + 2 >= tokens.len();
            match &tokens[pos + 1] {
                PathToken::Star | PathToken::StarIndex => if after_empty {
                    let found = if set.is_none() {
                        Some(fields[i].duplicate())
                    } else {
                        None
                    };
                    apply_at(fields, i, None, set);
                    (Ok(()), found)
                } else {
                    (Err(PathError::NotAChildMessage), None)
                },
                PathToken::Index(k) => if fields[i].repeated_field() && after_empty {
                    let found = if set.is_none() {
                        Some(fields[i].duplicate())
                    } else {
                        None
                    };
                    apply_at(fields, i, Some(*k), set);
                    (Ok(()), found)
                } else {
                    (Err(PathError::IndexOnNonRepeated), None)
                },
                _ => (Err(PathError::SegmentNotApplicable), None),
            }
        },
    }
}

impl DynamicMessage {
    /// The field that a path (starting at the root, `$`) reaches, through embedded messages,
    /// where there is one. Embedded messages that the path goes through are written back
    /// consolidated.
    pub fn fetch_field_value(&mut self, path: &Vec<PathToken>) -> (r: Option<ProtobufField>)
        ensures
            final(self)@.1 == old(self)@.1,
            if path@.len() > 0 && path@[0] is Root {
                &&& final(self)@.0
                    == spec_match_path(old(self)@.0, path@.drop_first(), old(self)@.1, None).0
                &&& field_opt_view(r) == spec_match_path(old(self)@.0, path@.drop_first(), old(self)@.1, None).2
            } else {
                &&& r is None
                &&& final(self)@.0 == old(self)@.0
            },
    {
        proof {
            use_type_invariant(&*self);
        }
        if path.len() > 0 && matches!(path[0], PathToken::Root) {
            proof {
                lemma_match_path_keeps_numbers(fields_view(self.fields@), path@.drop_first(), self.descriptors@, None);
                assert(path@.skip(1) =~= path@.drop_first());
            }
            let ghost before = fields_view(self.fields@);
            let mut fields = self.proto_fields();
            let (_, found) = match_path(&mut fields, path, 1, &self.descriptors, &None);
            proof {
                let after = fields_view(fields@);
                assert forall|a: int, b: int| 0 <= a < b < after.len() implies (#[trigger] after[a]).field_num < (#[trigger] after[b]).field_num by {
                    assert(after[a].field_num == before[a].field_num);
                    assert(after[b].field_num == before[b].field_num);
                }
            }
            self.fields = fields;
            found
        } else {
            None
        }
    }

    /// Sets the value of the field that a path (starting at the root, `$`) reaches, through
    /// embedded messages; an index after a repeated field sets the value at that index.
    pub fn set_field_value(&mut self, path: &Vec<PathToken>, value: ProtobufFieldData) -> (r: Result<(), PathError>)
        ensures
            final(self)@.1 == old(self)@.1,
            if path@.len() > 0 && path@[0] is Root {
                &&& final(self)@.0
                    == spec_match_path(old(self)@.0, path@.drop_first(), old(self)@.1, Some(value@)).0
                &&& r == spec_match_path(old(self)@.0, path@.drop_first(), old(self)@.1, Some(value@)).1
            } else {
                &&& r == Err::<(), PathError>(PathError::NoRoot)
                &&& final(self)@.0 == old(self)@.0
            },
    {
        proof {
            use_type_invariant(&*self);
        }
        if path.len() > 0 && matches!(path[0], PathToken::Root) {
            proof {
                lemma_match_path_keeps_numbers(fields_view(self.fields@), path@.drop_first(), self.descriptors@, Some(value@));
                assert(path@.skip(1) =~= path@.drop_first());
            }
            let ghost before = fields_view(self.fields@);
            let set = Some(value);
            let mut fields = self.proto_fields();
            let (res, _) = match_path(&mut fields, path, 1, &self.descriptors, &set);
            proof {
                let after = fields_view(fields@);
                assert forall|a: int, b: int| 0 <= a < b < after.len() implies (#[trigger] after[a]).field_num < (#[trigger] after[b]).field_num by {
                    assert(after[a].field_num == before[a].field_num);
                    assert(after[b].field_num == before[b].field_num);
                }
            }
            self.fields = fields;
            res
        } else {
            Err(PathError::NoRoot)
        }
    }
}


// ---------------------------------------------------------------------------------------------
// Applying generators
// ---------------------------------------------------------------------------------------------

/// Why generators could not be applied to a message.
#[derive(Clone, Debug, PartialEq, Eq)]
pub enum ApplyError {
    /// A generator could not produce a value for the field its path reaches.
    Generate(GenerateError),
    /// The generated value could not be set at the path.
    Path(PathError),
}

/// The message of an error that applying generators gave.
pub open spec fn spec_apply_message(e: ApplyError) -> Seq<char> {
    match e {
        ApplyError::Generate(g) => spec_generate_message(g),
        ApplyError::Path(_) => "The generated value could not be set at the path"@,
    }
}

impl ApplyError {
    /// The message of the error.
    pub fn message(&self) -> (r: String)
        ensures
            r@ == spec_apply_message(*self),
    {
        match self {
            ApplyError::Generate(g) => g.message(),
            ApplyError::Path(_) => String::from_str("The generated value could not be set at the path"),
        }
    }
}

/// The fields after fetching the field at a path, and the field, if the path reaches one.
pub open spec fn path_fetch(
    fields: Seq<ProtobufFieldView>,
    path: Seq<PathToken>,
    files: Seq<FileDescriptorView>,
) -> (Seq<ProtobufFieldView>, Option<ProtobufFieldView>) {
    if path.len() > 0 && path[0] is Root {
        let m = spec_match_path(fields, path.drop_first(), files, None);
        (m.0, m.2)
    } else {
        (fields, None)
    }
}

/// The fields after setting the field at a path to `d`, and the outcome.
pub open spec fn path_set(
    fields: Seq<ProtobufFieldView>,
    path: Seq<PathToken>,
    files: Seq<FileDescriptorView>,
    d: FieldDataView,
) -> (Seq<ProtobufFieldView>, Result<(), PathError>) {
    if path.len() > 0 && path[0] is Root {
        let m = spec_match_path(fields, path.drop_first(), files, Some(d));
        (m.0, m.1)
    } else {
        (fields, Err(PathError::NoRoot))
    }
}

/// The values of an array from the provider state set, in order, at their indexes of the
/// repeated field a path reaches: each value is converted to the kind of `data`, the data the
/// field had. Stops at the first value that can not be converted or set.
pub open spec fn spec_inject(
    fields: Seq<ProtobufFieldView>,
    path: Seq<PathToken>,
    files: Seq<FileDescriptorView>,
    data: FieldDataView,
    items: Seq<JsonValue>,
) -> (Seq<ProtobufFieldView>, Result<(), ApplyError>)
    decreases items.len(),
{
    if items.len() == 0 {
        (fields, Ok(()))
    } else {
        let prev = spec_inject(fields, path, files, data, items.drop_last());
        if prev.1 is Err {
            prev
        } else {
            match spec_state_data(data, items.last()) {
                Err(e) => (prev.0, Err(ApplyError::Generate(e))),
                Ok(d) => {
                    let set = path_set(prev.0, path.push(PathToken::Index((items.len() - 1) as usize)), files, d);
                    match set.1 {
                        Ok(()) => (set.0, Ok(())),
                        Err(e) => (set.0, Err(ApplyError::Path(e))),
                    }
                },
            }
        }
    }
}

/// The array a provider state generator gives a repeated field, value by value, where the
/// generator's value is an array and the field is repeated.
pub open spec fn injected_array(g: Generator, field: ProtobufFieldView) -> Option<Seq<JsonValue>> {
    match g {
        Generator::ProviderState(JsonValue::Array(items)) => if field.descriptor.is_repeated() {
            Some(items@)
        } else {
            None
        },
        _ => None,
    }
}

/// One generator applied, with `out` as what it generated: the field its path reaches (if any)
/// gets the generated value. A provider state array, which the generator can not give as one
/// value, fills a repeated field value by value (see `spec_inject`); any other field fails with
/// `ValueIsCollection`. The flag says whether `out` is a possible outcome of the generator for
/// that field.
pub open spec fn spec_apply_one(
    fields: Seq<ProtobufFieldView>,
    path: Seq<PathToken>,
    g: Generator,
    files: Seq<FileDescriptorView>,
    out: Result<FieldDataView, GenerateError>,
) -> (Seq<ProtobufFieldView>, Result<(), ApplyError>, bool) {
    let fetched = path_fetch(fields, path, files);
    match fetched.1 {
        None => (fetched.0, Ok(()), true),
        Some(field) => {
            let possible = spec_generates(g, field.data, out);
            match out {
                Err(e) => if e == GenerateError::ValueIsCollection && injected_array(g, field) is Some {
                    let inj = spec_inject(fetched.0, path, files, field.data, injected_array(g, field)->0);
                    (inj.0, inj.1, possible)
                } else {
                    (fetched.0, Err(ApplyError::Generate(e)), possible)
                },
                Ok(d) => {
                    let set = path_set(fetched.0, path, files, d);
                    match set.1 {
                        Ok(()) => (set.0, Ok(()), possible),
                        Err(e) => (set.0, Err(ApplyError::Path(e)), possible),
                    }
                },
            }
        },
    }
}

/// The generators applied in order, with `outs` as what each generated, up to the first that
/// fails. The flag says whether each generator that ran could have generated its value.
pub open spec fn spec_apply_generators(
    fields: Seq<ProtobufFieldView>,
    gens: Seq<(Seq<PathToken>, Generator)>,
    files: Seq<FileDescriptorView>,
    outs: Seq<Result<FieldDataView, GenerateError>>,
) -> (Seq<ProtobufFieldView>, Result<(), ApplyError>, bool)
    decreases gens.len(),
{
    if gens.len() == 0 {
        (fields, Ok(()), true)
    } else {
        let prev = spec_apply_generators(fields, gens.drop_last(), files, outs.drop_last());
        if prev.1 is Err {
            prev
        } else {
            let step = spec_apply_one(prev.0, gens.last().0, gens.last().1, files, outs.last());
            (step.0, step.1, prev.2 && step.2)
        }
    }
}

impl PathToken {
    /// A copy of the token.
    pub fn duplicate(&self) -> (r: PathToken)
        ensures
            r == *self,
    {
        match self {
            PathToken::Root => PathToken::Root,
            PathToken::Field(name) => PathToken::Field(name.clone()),
            PathToken::Index(k) => PathToken::Index(*k),
            PathToken::Star => PathToken::Star,
            PathToken::StarIndex => PathToken::StarIndex,
        }
    }
}

/// The path followed by an index (`path[index]`).
fn join_index(path: &Vec<PathToken>, index: usize) -> (r: Vec<PathToken>)
    ensures
        r@ == path@.push(PathToken::Index(index)),
{
    let mut out: Vec<PathToken> = Vec::new();
    let mut i: usize = 0;
    while i < path.len()
        invariant
            i <= path@.len(),
            out@ == path@.take(i as int),
        decreases path@.len() - i,
    {
        out.push(path[i].duplicate());
        assert(path@.take(i + 1) =~= path@.take(i as int).push(path@[i as int]));
        i = i + 1;
    }
    assert(path@.take(i as int) =~= path@);
    out.push(PathToken::Index(index));
    out
}

/// An injection that failed after `n` values gives the same outcome with all of them: the values
/// after a failure are not set.
proof fn lemma_inject_stops(
    fields: Seq<ProtobufFieldView>,
    path: Seq<PathToken>,
    files: Seq<FileDescriptorView>,
    data: FieldDataView,
    items: Seq<JsonValue>,
    n: int,
)
    requires
        0 <= n <= items.len(),
        spec_inject(fields, path, files, data, items.take(n)).1 is Err,
    ensures
        spec_inject(fields, path, files, data, items) == spec_inject(fields, path, files, data, items.take(n)),
    decreases items.len() - n,
{
    if n == items.len() {
        assert(items.take(n) =~= items);
    } else {
        let next = items.take(n + 1);
        assert(next.drop_last() =~= items.take(n));
        lemma_inject_stops(fields, path, files, data, items, n + 1);
    }
}

impl DynamicMessage {
    /// Sets the values of a provider state array, converted to the kind of `data`, at their
    /// indexes of the repeated field the path reaches (see `spec_inject`).
    fn inject_array(&mut self, path: &Vec<PathToken>, data: &ProtobufFieldData, items: &Vec<JsonValue>) -> (r: Result<(), ApplyError>)
        ensures
            final(self)@.1 == old(self)@.1,
            (final(self)@.0, r) == spec_inject(old(self)@.0, path@, old(self)@.1, data@, items@),
    {
        let ghost start = self@.0;
        let ghost files = self@.1;
        let mut i: usize = 0;
        assert(items@.take(0) =~= Seq::<JsonValue>::empty());
        while i < items.len()
            invariant
                self@.1 == files,
                files == old(self)@.1,
                start == old(self)@.0,
                i <= items@.len(),
                spec_inject(start, path@, files, data@, items@.take(i as int)) == (self@.0, Ok::<(), ApplyError>(())),
            decreases items@.len() - i,
        {
            let ghost next = items@.take(i + 1);
            proof {
                assert(next.drop_last() =~= items@.take(i as int));
                assert(next.last() == items@[i as int]);
                assert(next.len() - 1 == i);
            }
            let d = match state_data(data, &items[i]) {
                Ok(d) => d,
                Err(e) => {
                    proof {
                        lemma_inject_stops(start, path@, files, data@, items@, i + 1);
                    }
                    return Err(ApplyError::Generate(e));
                },
            };
            let index_path = join_index(path, i);
            let set = self.set_field_value(&index_path, d);
            match set {
                Err(e) => {
                    proof {
                        lemma_inject_stops(start, path@, files, data@, items@, i + 1);
                    }
                    return Err(ApplyError::Path(e));
                },
                Ok(()) => {},
            }
            i = i + 1;
        }
        assert(items@.take(i as int) =~= items@);
        Ok(())
    }
}

/// The paths and generators as plain values.
pub open spec fn generators_view(gens: Seq<(Vec<PathToken>, Generator)>) -> Seq<(Seq<PathToken>, Generator)> {
    gens.map_values(|e: (Vec<PathToken>, Generator)| (e.0@, e.1))
}

impl DynamicMessage {
    /// Applies the generators in order: each gives the field its path reaches (if any) a value
    /// generated for that field. Stops at the first generator that fails.
    #[verifier::rlimit(40)]
    pub fn apply_generators(&mut self, generators: &Vec<(Vec<PathToken>, Generator)>) -> (r: Result<(), ApplyError>)
        requires
            forall|k: int| 0 <= k < generators@.len() ==> generator_ok(#[trigger] generators@[k].1),
        ensures
            final(self)@.1 == old(self)@.1,
            exists|outs: Seq<Result<FieldDataView, GenerateError>>| {
                let run = #[trigger] spec_apply_generators(
                    old(self)@.0,
                    generators_view(generators@),
                    old(self)@.1,
                    outs,
                );
                &&& outs.len() == generators@.len()
                &&& run.2
                &&& final(self)@.0 == run.0
                &&& r == run.1
            },
    {
        proof {
            use_type_invariant(&*self);
        }
        let ghost start = self@.0;
        let ghost files = self@.1;
        let ghost gv = generators_view(generators@);
        let ghost mut outs: Seq<Result<FieldDataView, GenerateError>> = Seq::empty();
        let mut i: usize = 0;
        assert(gv.take(0) =~= Seq::<(Seq<PathToken>, Generator)>::empty());
        while i < generators.len()
            invariant
                self@.1 == files,
                gv == generators_view(generators@),
                forall|k: int| 0 <= k < generators@.len() ==> generator_ok(#[trigger] generators@[k].1),
                i <= generators@.len(),
                outs.len() == i,
                spec_apply_generators(start, gv.take(i as int), files, outs)
                    == (self@.0, Ok::<(), ApplyError>(()), true),
                start == old(self)@.0,
                files == old(self)@.1,
            decreases generators@.len() - i,
        {
            let path = &generators[i].0;
            let g = &generators[i].1;
            let ghost before = self@.0;
            let ghost prefix = gv.take(i as int);
            let ghost next = gv.take(i + 1);
            proof {
                assert(next.drop_last() =~= prefix);
                assert(next.last() == (path@, *g));
                assert(generator_ok(generators@[i as int].1));
            }
            let found = self.fetch_field_value(path);
            match found {
                None => {
                    proof {
                        let o = outs.push(Err(GenerateError::UnsupportedDataType));
                        assert(o.drop_last() =~= outs);
                        outs = o;
                    }
                },
                Some(field) => {
                    let generated = g.generate_value(&field.data);
                    let ghost step_outs = outs.push(data_result_view(generated));
                    proof {
                        assert(step_outs.drop_last() =~= outs);
                        assert(path_fetch(before, path@, files).1 == Some(field@));
                    }
                    match generated {
                        Err(e) => {
                            let array = match (&e, g) {
                                (GenerateError::ValueIsCollection, Generator::ProviderState(JsonValue::Array(items))) => if field.repeated_field() {
                                    Some(items)
                                } else {
                                    None
                                },
                                _ => None,
                            };
                            proof {
                                outs = step_outs;
                                assert(array is Some <==> (e == GenerateError::ValueIsCollection && injected_array(*g, field@) is Some));
                            }
                            match array {
                                Some(items) => {
                                    let injected = self.inject_array(path, &field.data, items);
                                    match injected {
                                        Err(e2) => {
                                            proof {
                                                let run = spec_apply_generators(start, next, files, outs);
                                                assert(run == (self@.0, Err::<(), ApplyError>(e2), true));
                                                lemma_apply_stops(start, gv, files, outs, (i + 1) as int);
                                            }
                                            return Err(e2);
                                        },
                                        Ok(()) => {
                                            proof {
                                                let run = spec_apply_generators(start, next, files, outs);
                                                assert(run == (self@.0, Ok::<(), ApplyError>(()), true));
                                            }
                                        },
                                    }
                                },
                                None => {
                                    proof {
                                        let run = spec_apply_generators(start, next, files, outs);
                                        assert(run == (self@.0, Err::<(), ApplyError>(ApplyError::Generate(e)), true));
                                        lemma_apply_stops(start, gv, files, outs, (i + 1) as int);
                                    }
                                    return Err(ApplyError::Generate(e));
                                },
                            }
                        },
                        Ok(d) => {
                            let set = self.set_field_value(path, d);
                            proof {
                                outs = step_outs;
                            }
                            match set {
                                Err(e) => {
                                    proof {
                                        let run = spec_apply_generators(start, next, files, outs);
                                        assert(run == (self@.0, Err::<(), ApplyError>(ApplyError::Path(e)), true));
                                        lemma_apply_stops(start, gv, files, outs, (i + 1) as int);
                                    }
                                    return Err(ApplyError::Path(e));
                                },
                                Ok(()) => {},
                            }
                        },
                    }
                },
            }
            i = i + 1;
        }
        proof {
            assert(gv.take(i as int) =~= gv);
            assert(spec_apply_generators(start, gv, files, outs).2);
        }
        Ok(())
    }
}

/// A run that failed after `n` generators gives the same outcome with all of them: the generators
/// after a failure do not run.
proof fn lemma_apply_stops(
    fields: Seq<ProtobufFieldView>,
    gens: Seq<(Seq<PathToken>, Generator)>,
    files: Seq<FileDescriptorView>,
    outs: Seq<Result<FieldDataView, GenerateError>>,
    n: int,
)
    requires
        0 <= n <= gens.len(),
        outs.len() == n,
        spec_apply_generators(fields, gens.take(n), files, outs).1 is Err,
    ensures
        exists|o: Seq<Result<FieldDataView, GenerateError>>| {
            let run = #[trigger] spec_apply_generators(fields, gens, files, o);
            &&& o.len() == gens.len()
            &&& run == spec_apply_generators(fields, gens.take(n), files, outs)
        },
    decreases gens.len() - n,
{
    if n == gens.len() {
        assert(gens.take(n) =~= gens);
        assert(spec_apply_generators(fields, gens, files, outs) == spec_apply_generators(fields, gens.take(n), files, outs));
    } else {
        let o = outs.push(Err(GenerateError::UnsupportedDataType));
        let next = gens.take(n + 1);
        assert(next.drop_last() =~= gens.take(n));
        assert(o.drop_last() =~= outs);
        assert(spec_apply_generators(fields, next, files, o) == spec_apply_generators(fields, gens.take(n), files, outs));
        lemma_apply_stops(fields, gens, files, o, n + 1);
    }
}

} // verus!
