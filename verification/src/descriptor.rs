//! Protobuf descriptors: what the decoder and the builder read of a `.proto` definition.
//!
//! These hold, as plain values, the parts of `prost_types` descriptors that the library's logic
//! reads (names, numbers, labels, types, nested types and enums). Numeric codes follow
//! `descriptor.proto`.
use vstd::prelude::*;
use vstd::string::StrSliceExecFns;
use crate::wire::WireType;

verus! {

/// The type of a field, as in `FieldDescriptorProto.Type`.
#[derive(Clone, Copy, Debug, PartialEq, Eq, Structural)]
pub enum FieldType {
    Double,
    Float,
    Int64,
    Uint64,
    Int32,
    Fixed64,
    Fixed32,
    Bool,
    String,
    Group,
    Message,
    Bytes,
    Uint32,
    Enum,
    Sfixed32,
    Sfixed64,
    Sint32,
    Sint64,
}

/// The field type for a numeric type code; a missing or unknown code reads as `Double`, the
/// first value of the enumeration.
pub open spec fn spec_field_type(code: Option<i32>) -> FieldType {
    match code {
        Some(c) => if c == 1 {
            FieldType::Double
        } else if c == 2 {
            FieldType::Float
        } else if c == 3 {
            FieldType::Int64
        } else if c == 4 {
            FieldType::Uint64
        } else if c == 5 {
            FieldType::Int32
        } else if c == 6 {
            FieldType::Fixed64
        } else if c == 7 {
            FieldType::Fixed32
        } else if c == 8 {
            FieldType::Bool
        } else if c == 9 {
            FieldType::String
        } else if c == 10 {
            FieldType::Group
        } else if c == 11 {
            FieldType::Message
        } else if c == 12 {
            FieldType::Bytes
        } else if c == 13 {
            FieldType::Uint32
        } else if c == 14 {
            FieldType::Enum
        } else if c == 15 {
            FieldType::Sfixed32
        } else if c == 16 {
            FieldType::Sfixed64
        } else if c == 17 {
            FieldType::Sint32
        } else if c == 18 {
            FieldType::Sint64
        } else {
            FieldType::Double
        },
        None => FieldType::Double,
    }
}

/// Label code of a repeated field.
pub const LABEL_REPEATED: i32 = 3;

/// Types that are written in packed form when the field is repeated.
pub open spec fn spec_should_be_packed_type(t: FieldType) -> bool {
    match t {
        FieldType::Double | FieldType::Float | FieldType::Int64 | FieldType::Uint64
        | FieldType::Int32 | FieldType::Fixed64 | FieldType::Fixed32 | FieldType::Uint32
        | FieldType::Sfixed32 | FieldType::Sfixed64 | FieldType::Sint32 | FieldType::Sint64
        | FieldType::Enum => true,
        _ => false,
    }
}

/// If values of the type are written in packed form when the field is repeated.
pub fn should_be_packed_type(t: FieldType) -> (r: bool)
    ensures
        r == spec_should_be_packed_type(t),
{
    match t {
        FieldType::Double | FieldType::Float | FieldType::Int64 | FieldType::Uint64
        | FieldType::Int32 | FieldType::Fixed64 | FieldType::Fixed32 | FieldType::Uint32
        | FieldType::Sfixed32 | FieldType::Sfixed64 | FieldType::Sint32 | FieldType::Sint64
        | FieldType::Enum => true,
        _ => false,
    }
}

/// The wire type that values of a field type are written with.
pub open spec fn spec_wire_type_for_type(t: FieldType) -> WireType {
    match t {
        FieldType::Double | FieldType::Fixed64 | FieldType::Sfixed64 => WireType::SixtyFourBit,
        FieldType::Float | FieldType::Fixed32 | FieldType::Sfixed32 => WireType::ThirtyTwoBit,
        FieldType::Int64 | FieldType::Uint64 | FieldType::Int32 | FieldType::Bool
        | FieldType::Uint32 | FieldType::Enum | FieldType::Sint32 | FieldType::Sint64 => WireType::Varint,
        _ => WireType::LengthDelimited,
    }
}

pub open spec fn opt_view(s: Option<String>) -> Option<Seq<char>> {
    match s {
        Some(x) => Some(x@),
        None => None,
    }
}

/// The text of an optional string, empty where there is none.
pub open spec fn opt_text(s: Option<Seq<char>>) -> Seq<char> {
    match s {
        Some(x) => x,
        None => Seq::empty(),
    }
}

/// Copies an optional string.
pub fn clone_opt_string(s: &Option<String>) -> (r: Option<String>)
    ensures
        opt_view(r) == opt_view(*s),
{
    match s {
        Some(x) => Some(x.clone()),
        None => None,
    }
}

// ---------------------------------------------------------------------------------------------
// Field descriptors
// ---------------------------------------------------------------------------------------------

/// Descriptor of a message field.
#[derive(Clone, Debug, PartialEq, Default)]
pub struct FieldDescriptor {
    pub name: Option<String>,
    pub number: Option<i32>,
    /// Label code (1 optional, 2 required, 3 repeated).
    pub label: Option<i32>,
    /// Type code (see `FieldType`).
    pub proto_type: Option<i32>,
    /// Fully qualified name of the message or enum type, for message and enum fields.
    pub type_ref: Option<String>,
    /// Default value in text form.
    pub default_value: Option<String>,
}

pub struct FieldDescriptorView {
    pub name: Option<Seq<char>>,
    pub number: Option<i32>,
    pub label: Option<i32>,
    pub proto_type: Option<i32>,
    pub type_ref: Option<Seq<char>>,
    pub default_value: Option<Seq<char>>,
}

impl View for FieldDescriptor {
    type V = FieldDescriptorView;

    open spec fn view(&self) -> FieldDescriptorView {
        FieldDescriptorView {
            name: opt_view(self.name),
            number: self.number,
            label: self.label,
            proto_type: self.proto_type,
            type_ref: opt_view(self.type_ref),
            default_value: opt_view(self.default_value),
        }
    }
}

impl FieldDescriptorView {
    pub open spec fn field_type(self) -> FieldType {
        spec_field_type(self.proto_type)
    }

    pub open spec fn is_repeated(self) -> bool {
        self.label == Some(LABEL_REPEATED)
    }

    /// The descriptor of a field that has none (all values unset).
    pub open spec fn empty() -> FieldDescriptorView {
        FieldDescriptorView {
            name: None,
            number: None,
            label: None,
            proto_type: None,
            type_ref: None,
            default_value: None,
        }
    }
}

impl FieldDescriptor {
    /// The type of the field.
    pub fn field_type(&self) -> (r: FieldType)
        ensures
            r == self@.field_type(),
    {
        match self.proto_type {
            Some(c) => if c == 1 {
                FieldType::Double
            } else if c == 2 {
                FieldType::Float
            } else if c == 3 {
                FieldType::Int64
            } else if c == 4 {
                FieldType::Uint64
            } else if c == 5 {
                FieldType::Int32
            } else if c == 6 {
                FieldType::Fixed64
            } else if c == 7 {
                FieldType::Fixed32
            } else if c == 8 {
                FieldType::Bool
            } else if c == 9 {
                FieldType::String
            } else if c == 10 {
                FieldType::Group
            } else if c == 11 {
                FieldType::Message
            } else if c == 12 {
                FieldType::Bytes
            } else if c == 13 {
                FieldType::Uint32
            } else if c == 14 {
                FieldType::Enum
            } else if c == 15 {
                FieldType::Sfixed32
            } else if c == 16 {
                FieldType::Sfixed64
            } else if c == 17 {
                FieldType::Sint32
            } else if c == 18 {
                FieldType::Sint64
            } else {
                FieldType::Double
            },
            None => FieldType::Double,
        }
    }

    /// If the field is a repeated field.
    pub fn is_repeated_field(&self) -> (r: bool)
        ensures
            r == self@.is_repeated(),
    {
        match self.label {
            Some(l) => l == LABEL_REPEATED,
            None => false,
        }
    }

    /// The wire type that values of this field are written with.
    pub fn wire_type_for_field(&self) -> (r: WireType)
        ensures
            r == spec_wire_type_for_type(self@.field_type()),
    {
        match self.field_type() {
            FieldType::Double | FieldType::Fixed64 | FieldType::Sfixed64 => WireType::SixtyFourBit,
            FieldType::Float | FieldType::Fixed32 | FieldType::Sfixed32 => WireType::ThirtyTwoBit,
            FieldType::Int64 | FieldType::Uint64 | FieldType::Int32 | FieldType::Bool
            | FieldType::Uint32 | FieldType::Enum | FieldType::Sint32 | FieldType::Sint64 => WireType::Varint,
            _ => WireType::LengthDelimited,
        }
    }

    /// The name of the field, empty where it has none.
    pub fn name_or_empty(&self) -> (r: String)
        ensures
            r@ == opt_text(self@.name),
    {
        match &self.name {
            Some(n) => n.clone(),
            None => String::new(),
        }
    }

    /// A copy of this descriptor.
    pub fn duplicate(&self) -> (r: FieldDescriptor)
        ensures
            r@ == self@,
    {
        FieldDescriptor {
            name: clone_opt_string(&self.name),
            number: self.number,
            label: self.label,
            proto_type: self.proto_type,
            type_ref: clone_opt_string(&self.type_ref),
            default_value: clone_opt_string(&self.default_value),
        }
    }
}

// ---------------------------------------------------------------------------------------------
// Enum descriptors
// ---------------------------------------------------------------------------------------------

/// A named value of an enum.
#[derive(Clone, Debug, PartialEq)]
pub struct EnumValueDescriptor {
    pub name: Option<String>,
    pub number: Option<i32>,
}

pub struct EnumValueDescriptorView {
    pub name: Option<Seq<char>>,
    pub number: Option<i32>,
}

impl View for EnumValueDescriptor {
    type V = EnumValueDescriptorView;

    open spec fn view(&self) -> EnumValueDescriptorView {
        EnumValueDescriptorView { name: opt_view(self.name), number: self.number }
    }
}

/// Descriptor of an enum type.
#[derive(Clone, Debug, PartialEq)]
pub struct EnumDescriptor {
    pub name: Option<String>,
    pub values: Vec<EnumValueDescriptor>,
}

pub struct EnumDescriptorView {
    pub name: Option<Seq<char>>,
    pub values: Seq<EnumValueDescriptorView>,
}

impl View for EnumDescriptor {
    type V = EnumDescriptorView;

    open spec fn view(&self) -> EnumDescriptorView {
        EnumDescriptorView {
            name: opt_view(self.name),
            values: self.values@.map_values(|v: EnumValueDescriptor| v@),
        }
    }
}

impl EnumDescriptor {
    /// A copy of this descriptor.
    pub fn duplicate(&self) -> (r: EnumDescriptor)
        ensures
            r@ == self@,
    {
        let mut values: Vec<EnumValueDescriptor> = Vec::new();
        let mut i: usize = 0;
        while i < self.values.len()
            invariant
                i <= self.values@.len(),
                values@.len() == i,
                forall|j: int| 0 <= j < i ==> #[trigger] values@[j]@ == self.values@[j]@,
            decreases self.values@.len() - i,
        {
            let v = &self.values[i];
            values.push(EnumValueDescriptor { name: clone_opt_string(&v.name), number: v.number });
            i = i + 1;
        }
        let r = EnumDescriptor { name: clone_opt_string(&self.name), values };
        assert(r@.values =~= self@.values);
        r
    }
}

// ---------------------------------------------------------------------------------------------
// Message descriptors
// ---------------------------------------------------------------------------------------------

/// Descriptor of a message type.
#[derive(Debug, PartialEq, Default)]
pub struct MessageDescriptor {
    pub name: Option<String>,
    pub fields: Vec<FieldDescriptor>,
    pub nested_types: Vec<MessageDescriptor>,
    pub enum_types: Vec<EnumDescriptor>,
}

pub struct MessageDescriptorView {
    pub name: Option<Seq<char>>,
    pub fields: Seq<FieldDescriptorView>,
    pub nested_types: Seq<MessageDescriptorView>,
    pub enum_types: Seq<EnumDescriptorView>,
}

impl MessageDescriptor {
    /// The abstract value of the descriptor.
    pub open spec fn spec_view(self) -> MessageDescriptorView
        decreases self,
    {
        MessageDescriptorView {
            name: opt_view(self.name),
            fields: self.fields@.map_values(|f: FieldDescriptor| f@),
            nested_types: Seq::new(
                self.nested_types@.len(),
                |i: int|
                    if 0 <= i < self.nested_types@.len() {
                        self.nested_types@[i].spec_view()
                    } else {
                        MessageDescriptorView {
                            name: None,
                            fields: Seq::empty(),
                            nested_types: Seq::empty(),
                            enum_types: Seq::empty(),
                        }
                    },
            ),
            enum_types: self.enum_types@.map_values(|e: EnumDescriptor| e@),
        }
    }

    /// A copy of this descriptor.
    pub fn duplicate(&self) -> (r: MessageDescriptor)
        ensures
            r@ == self@,
        decreases self,
    {
        let mut fields: Vec<FieldDescriptor> = Vec::new();
        let mut i: usize = 0;
        while i < self.fields.len()
            invariant
                i <= self.fields@.len(),
                fields@.len() == i,
                forall|j: int| 0 <= j < i ==> #[trigger] fields@[j]@ == self.fields@[j]@,
            decreases self.fields@.len() - i,
        {
            fields.push(self.fields[i].duplicate());
            i = i + 1;
        }
        let mut nested: Vec<MessageDescriptor> = Vec::new();
        let mut i: usize = 0;
        while i < self.nested_types.len()
            invariant
                i <= self.nested_types@.len(),
                nested@.len() == i,
                forall|j: int| 0 <= j < i ==> #[trigger] nested@[j]@ == self.nested_types@[j]@,
            decreases self.nested_types@.len() - i,
        {
            nested.push(self.nested_types[i].duplicate());
            i = i + 1;
        }
        let mut enums: Vec<EnumDescriptor> = Vec::new();
        let mut i: usize = 0;
        while i < self.enum_types.len()
            invariant
                i <= self.enum_types@.len(),
                enums@.len() == i,
                forall|j: int| 0 <= j < i ==> #[trigger] enums@[j]@ == self.enum_types@[j]@,
            decreases self.enum_types@.len() - i,
        {
            enums.push(self.enum_types[i].duplicate());
            i = i + 1;
        }
        let r = MessageDescriptor {
            name: clone_opt_string(&self.name),
            fields,
            nested_types: nested,
            enum_types: enums,
        };
        assert(r@.fields =~= self@.fields);
        assert(r@.enum_types =~= self@.enum_types);
        assert(r@.nested_types.len() == self@.nested_types.len());
        assert forall|j: int| 0 <= j < r@.nested_types.len() implies r@.nested_types[j]
            == self@.nested_types[j] by {
            assert(r.nested_types@[j]@ == self.nested_types@[j]@);
        }
        assert(r@.nested_types =~= self@.nested_types);
        r
    }
}

impl View for MessageDescriptor {
    type V = MessageDescriptorView;

    open spec fn view(&self) -> MessageDescriptorView {
        self.spec_view()
    }
}

// ---------------------------------------------------------------------------------------------
// Files
// ---------------------------------------------------------------------------------------------

/// Descriptor of a `.proto` file.
#[derive(Debug, PartialEq, Default)]
pub struct FileDescriptor {
    pub name: Option<String>,
    pub package: Option<String>,
    pub message_types: Vec<MessageDescriptor>,
    pub enum_types: Vec<EnumDescriptor>,
}

pub struct FileDescriptorView {
    pub name: Option<Seq<char>>,
    pub package: Option<Seq<char>>,
    pub message_types: Seq<MessageDescriptorView>,
    pub enum_types: Seq<EnumDescriptorView>,
}

impl View for FileDescriptor {
    type V = FileDescriptorView;

    open spec fn view(&self) -> FileDescriptorView {
        FileDescriptorView {
            name: opt_view(self.name),
            package: opt_view(self.package),
            message_types: self.message_types@.map_values(|m: MessageDescriptor| m@),
            enum_types: self.enum_types@.map_values(|e: EnumDescriptor| e@),
        }
    }
}

impl FileDescriptor {
    /// A copy of this descriptor.
    pub fn duplicate(&self) -> (r: FileDescriptor)
        ensures
            r@ == self@,
    {
        let mut messages: Vec<MessageDescriptor> = Vec::new();
        let mut i: usize = 0;
        while i < self.message_types.len()
            invariant
                i <= self.message_types@.len(),
                messages@.len() == i,
                forall|j: int| 0 <= j < i ==> #[trigger] messages@[j]@ == self.message_types@[j]@,
            decreases self.message_types@.len() - i,
        {
            messages.push(self.message_types[i].duplicate());
            i = i + 1;
        }
        let mut enums: Vec<EnumDescriptor> = Vec::new();
        let mut i: usize = 0;
        while i < self.enum_types.len()
            invariant
                i <= self.enum_types@.len(),
                enums@.len() == i,
                forall|j: int| 0 <= j < i ==> #[trigger] enums@[j]@ == self.enum_types@[j]@,
            decreases self.enum_types@.len() - i,
        {
            enums.push(self.enum_types[i].duplicate());
            i = i + 1;
        }
        let r = FileDescriptor {
            name: clone_opt_string(&self.name),
            package: clone_opt_string(&self.package),
            message_types: messages,
            enum_types: enums,
        };
        assert(r@.message_types =~= self@.message_types);
        assert(r@.enum_types =~= self@.enum_types);
        r
    }
}

/// All the file descriptors available, with those the files import.
#[derive(Debug, PartialEq, Default)]
pub struct FileDescriptorSet {
    pub files: Vec<FileDescriptor>,
}

impl View for FileDescriptorSet {
    type V = Seq<FileDescriptorView>;

    open spec fn view(&self) -> Seq<FileDescriptorView> {
        self.files@.map_values(|f: FileDescriptor| f@)
    }
}

} // verus!
