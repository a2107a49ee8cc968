//! Finding fields, enums and message types in descriptors by number or by name.
use vstd::prelude::*;
use vstd::string::{StrSliceExecFns, StringExecFns};
use crate::descriptor::{
    opt_text, EnumDescriptor, EnumDescriptorView, FieldDescriptor, FieldDescriptorView, FileDescriptor,
    FileDescriptorSet, FileDescriptorView, MessageDescriptor, MessageDescriptorView,
};

verus! {

/// The view of an optional value.
pub open spec fn opt_map_view<T: View>(o: Option<T>) -> Option<T::V> {
    match o {
        Some(x) => Some(x@),
        None => None,
    }
}

// ---------------------------------------------------------------------------------------------
// Names
// ---------------------------------------------------------------------------------------------

/// The last component of a dotted name: what follows its last '.', or the whole name where it
/// has none.
pub open spec fn spec_last_name(s: Seq<char>) -> Seq<char>
    decreases s.len(),
{
    if s.len() == 0 {
        s
    } else if s.last() == '.' {
        Seq::empty()
    } else {
        spec_last_name(s.drop_last()).push(s.last())
    }
}

/// A type reference without its leading '.'.
pub open spec fn spec_strip_leading_dot(s: Seq<char>) -> Seq<char> {
    if s.len() > 0 && s[0] == '.' {
        s.drop_first()
    } else {
        s
    }
}

/// `package.name`, or `name` where the package is empty.
pub open spec fn spec_qualified(package: Seq<char>, name: Seq<char>) -> Seq<char> {
    if package.len() == 0 {
        name
    } else {
        package + seq!['.'] + name
    }
}

proof fn lemma_last_name_suffix(s: Seq<char>, i: int)
    requires
        0 <= i <= s.len(),
        forall|j: int| i <= j < s.len() ==> s[j] != '.',
        i == 0 || s[i - 1] == '.',
    ensures
        spec_last_name(s) == s.subrange(i, s.len() as int),
    decreases s.len(),
{
    if s.len() == i {
        assert(s.subrange(i, s.len() as int) =~= Seq::<char>::empty());
        if i > 0 {
            assert(s.last() == s[i - 1]);
        }
    } else {
        let t = s.drop_last();
        assert forall|j: int| i <= j < t.len() implies t[j] != '.' by {
            assert(t[j] == s[j]);
        }
        if i > 0 {
            assert(t[i - 1] == s[i - 1]);
        }
        lemma_last_name_suffix(t, i);
        assert(t.subrange(i, t.len() as int).push(s.last()) =~= s.subrange(i, s.len() as int));
    }
}

/// The last component of a dotted name (what follows its last '.').
pub fn last_name(name: &str) -> (r: &str)
    ensures
        r@ == spec_last_name(name@),
{
    let n = name.unicode_len();
    let mut i = n;
    while i > 0 && name.get_char(i - 1) != '.'
        invariant
            n == name@.len(),
            i <= n,
            forall|j: int| i <= j < n ==> name@[j] != '.',
        decreases i,
    {
        i = i - 1;
    }
    proof {
        lemma_last_name_suffix(name@, i as int);
    }
    name.substring_char(i, n)
}

/// A type reference without its leading '.'.
pub fn strip_leading_dot(name: &str) -> (r: &str)
    ensures
        r@ == spec_strip_leading_dot(name@),
{
    let n = name.unicode_len();
    if n > 0 && name.get_char(0) == '.' {
        let r = name.substring_char(1, n);
        assert(r@ =~= name@.drop_first());
        r
    } else {
        name
    }
}

/// `package.name`, or `name` where the package is empty.
pub fn qualified(package: &str, name: &str) -> (r: String)
    ensures
        r@ == spec_qualified(package@, name@),
{
    if package.unicode_len() == 0 {
        String::from_str(name)
    } else {
        proof {
            reveal_strlit(".");
        }
        let r = String::from_str(package).concat(".").concat(name);
        assert(r@ =~= package@ + seq!['.'] + name@);
        r
    }
}

// ---------------------------------------------------------------------------------------------
// Fields
// ---------------------------------------------------------------------------------------------

/// The first field with the given number.
pub open spec fn spec_find_field(fields: Seq<FieldDescriptorView>, num: i32) -> Option<FieldDescriptorView>
    decreases fields.len(),
{
    if fields.len() == 0 {
        None
    } else if fields[0].number == Some(num) {
        Some(fields[0])
    } else {
        spec_find_field(fields.drop_first(), num)
    }
}

/// Finds the descriptor of the field with the given number.
pub fn find_field_descriptor(field_num: i32, descriptor: &MessageDescriptor) -> (r: Option<FieldDescriptor>)
    ensures
        opt_map_view(r) == spec_find_field(descriptor@.fields, field_num),
{
    let ghost fields = descriptor@.fields;
    let mut i: usize = 0;
    assert(fields.skip(0) =~= fields);
    while i < descriptor.fields.len()
        invariant
            fields == descriptor@.fields,
            fields.len() == descriptor.fields@.len(),
            i <= fields.len(),
            spec_find_field(fields, field_num) == spec_find_field(fields.skip(i as int), field_num),
        decreases fields.len() - i,
    {
        assert(fields.skip(i as int)[0] == fields[i as int]);
        let f = &descriptor.fields[i];
        if f.number == Some(field_num) {
            return Some(f.duplicate());
        }
        assert(fields.skip(i as int).drop_first() =~= fields.skip(i + 1));
        i = i + 1;
    }
    None
}

/// Finds the descriptor of the field with the given name.
pub open spec fn spec_find_field_by_name(fields: Seq<FieldDescriptorView>, name: Seq<char>) -> Option<FieldDescriptorView>
    decreases fields.len(),
{
    if fields.len() == 0 {
        None
    } else if opt_text(fields[0].name) == name {
        Some(fields[0])
    } else {
        spec_find_field_by_name(fields.drop_first(), name)
    }
}

/// Finds the descriptor of the first field whose name (empty where it has none) is `name`.
pub fn find_field_by_name(fields: &Vec<FieldDescriptor>, name: &str) -> (r: Option<FieldDescriptor>)
    ensures
        opt_map_view(r) == spec_find_field_by_name(fields@.map_values(|f: FieldDescriptor| f@), name@),
{
    let ghost views = fields@.map_values(|f: FieldDescriptor| f@);
    let target = String::from_str(name);
    let mut i: usize = 0;
    assert(views.skip(0) =~= views);
    while i < fields.len()
        invariant
            views == fields@.map_values(|f: FieldDescriptor| f@),
            target@ == name@,
            i <= views.len(),
            spec_find_field_by_name(views, name@) == spec_find_field_by_name(views.skip(i as int), name@),
        decreases views.len() - i,
    {
        assert(views.skip(i as int)[0] == fields@[i as int]@);
        let f = &fields[i];
        if f.name_or_empty() == target {
            return Some(f.duplicate());
        }
        assert(views.skip(i as int).drop_first() =~= views.skip(i + 1));
        i = i + 1;
    }
    None
}

// ---------------------------------------------------------------------------------------------
// Enums and nested messages of a message, by last name
// ---------------------------------------------------------------------------------------------

/// The first enum whose name is `name`.
pub open spec fn spec_find_enum_named(enums: Seq<EnumDescriptorView>, name: Seq<char>) -> Option<EnumDescriptorView>
    decreases enums.len(),
{
    if enums.len() == 0 {
        None
    } else if enums[0].name == Some(name) {
        Some(enums[0])
    } else {
        spec_find_enum_named(enums.drop_first(), name)
    }
}

/// The enum among those of a message that a type reference names (by its last component).
pub open spec fn spec_find_enum_by_name_in_message(enums: Seq<EnumDescriptorView>, type_ref: Seq<char>) -> Option<EnumDescriptorView> {
    spec_find_enum_named(enums, spec_last_name(type_ref))
}

/// Finds the enum among those of a message that a type reference names (by its last component).
pub fn find_enum_by_name_in_message(enums: &Vec<EnumDescriptor>, type_ref: &str) -> (r: Option<EnumDescriptor>)
    ensures
        opt_map_view(r) == spec_find_enum_by_name_in_message(enums@.map_values(|e: EnumDescriptor| e@), type_ref@),
{
    let ghost views = enums@.map_values(|e: EnumDescriptor| e@);
    let target = String::from_str(last_name(type_ref));
    let mut i: usize = 0;
    assert(views.skip(0) =~= views);
    while i < enums.len()
        invariant
            views == enums@.map_values(|e: EnumDescriptor| e@),
            target@ == spec_last_name(type_ref@),
            i <= views.len(),
            spec_find_enum_named(views, target@) == spec_find_enum_named(views.skip(i as int), target@),
        decreases views.len() - i,
    {
        assert(views.skip(i as int)[0] == enums@[i as int]@);
        let e = &enums[i];
        let matches = match &e.name {
            Some(n) => *n == target,
            None => false,
        };
        if matches {
            return Some(e.duplicate());
        }
        assert(views.skip(i as int).drop_first() =~= views.skip(i + 1));
        i = i + 1;
    }
    None
}

/// The first message whose name is `name`.
pub open spec fn spec_find_message_named(msgs: Seq<MessageDescriptorView>, name: Seq<char>) -> Option<MessageDescriptorView>
    decreases msgs.len(),
{
    if msgs.len() == 0 {
        None
    } else if msgs[0].name == Some(name) {
        Some(msgs[0])
    } else {
        spec_find_message_named(msgs.drop_first(), name)
    }
}

/// Finds the nested message type that a type reference names (by its last component).
pub fn find_nested_type(nested: &Vec<MessageDescriptor>, type_ref: &str) -> (r: Option<MessageDescriptor>)
    ensures
        opt_map_view(r) == spec_find_message_named(nested@.map_values(|m: MessageDescriptor| m@), spec_last_name(type_ref@)),
{
    let ghost views = nested@.map_values(|m: MessageDescriptor| m@);
    let target = String::from_str(last_name(type_ref));
    let mut i: usize = 0;
    assert(views.skip(0) =~= views);
    while i < nested.len()
        invariant
            views == nested@.map_values(|m: MessageDescriptor| m@),
            target@ == spec_last_name(type_ref@),
            i <= views.len(),
            spec_find_message_named(views, target@) == spec_find_message_named(views.skip(i as int), target@),
        decreases views.len() - i,
    {
        assert(views.skip(i as int)[0] == nested@[i as int]@);
        let m = &nested[i];
        let matches = match &m.name {
            Some(n) => *n == target,
            None => false,
        };
        if matches {
            return Some(m.duplicate());
        }
        assert(views.skip(i as int).drop_first() =~= views.skip(i + 1));
        i = i + 1;
    }
    None
}

// ---------------------------------------------------------------------------------------------
// Enums and message types of all the files, by fully qualified name
// ---------------------------------------------------------------------------------------------

/// The first enum whose qualified name (`package.` before `prefix` and its name) is `target`.
pub open spec fn spec_find_enum_qualified(
    enums: Seq<EnumDescriptorView>,
    package: Seq<char>,
    prefix: Seq<char>,
    target: Seq<char>,
) -> Option<EnumDescriptorView>
    decreases enums.len(),
{
    if enums.len() == 0 {
        None
    } else if spec_qualified(package, prefix + opt_text(enums[0].name)) == target {
        Some(enums[0])
    } else {
        spec_find_enum_qualified(enums.drop_first(), package, prefix, target)
    }
}

/// The first enum declared in one of the messages (`package.Message.Enum`) that is `target`.
pub open spec fn spec_find_enum_in_messages(
    msgs: Seq<MessageDescriptorView>,
    package: Seq<char>,
    target: Seq<char>,
) -> Option<EnumDescriptorView>
    decreases msgs.len(),
{
    if msgs.len() == 0 {
        None
    } else {
        match spec_find_enum_qualified(msgs[0].enum_types, package, opt_text(msgs[0].name) + seq!['.'], target) {
            Some(e) => Some(e),
            None => spec_find_enum_in_messages(msgs.drop_first(), package, target),
        }
    }
}

/// The first enum of the files, declared at the top level of a file or in one of its messages,
/// whose fully qualified name is `target`.
pub open spec fn spec_find_enum_in_files(files: Seq<FileDescriptorView>, target: Seq<char>) -> Option<EnumDescriptorView>
    decreases files.len(),
{
    if files.len() == 0 {
        None
    } else {
        let p = opt_text(files[0].package);
        match spec_find_enum_qualified(files[0].enum_types, p, Seq::empty(), target) {
            Some(e) => Some(e),
            None => match spec_find_enum_in_messages(files[0].message_types, p, target) {
                Some(e) => Some(e),
                None => spec_find_enum_in_files(files.drop_first(), target),
            },
        }
    }
}

/// The enum that a fully qualified type reference (with or without its leading '.') names.
pub open spec fn spec_find_enum_by_name(files: Seq<FileDescriptorView>, type_ref: Seq<char>) -> Option<EnumDescriptorView> {
    spec_find_enum_in_files(files, spec_strip_leading_dot(type_ref))
}

fn find_enum_qualified(enums: &Vec<EnumDescriptor>, package: &str, prefix: &str, target: &str) -> (r: Option<EnumDescriptor>)
    ensures
        opt_map_view(r) == spec_find_enum_qualified(enums@.map_values(|e: EnumDescriptor| e@), package@, prefix@, target@),
{
    let ghost views = enums@.map_values(|e: EnumDescriptor| e@);
    let wanted = String::from_str(target);
    let mut i: usize = 0;
    assert(views.skip(0) =~= views);
    while i < enums.len()
        invariant
            views == enums@.map_values(|e: EnumDescriptor| e@),
            wanted@ == target@,
            i <= views.len(),
            spec_find_enum_qualified(views, package@, prefix@, target@)
                == spec_find_enum_qualified(views.skip(i as int), package@, prefix@, target@),
        decreases views.len() - i,
    {
        assert(views.skip(i as int)[0] == enums@[i as int]@);
        let e = &enums[i];
        let name = match &e.name {
            Some(n) => n.clone(),
            None => String::new(),
        };
        let full = qualified(package, String::from_str(prefix).concat(name.as_str()).as_str());
        if full == wanted {
            return Some(e.duplicate());
        }
        assert(views.skip(i as int).drop_first() =~= views.skip(i + 1));
        i = i + 1;
    }
    None
}

fn find_enum_in_messages(msgs: &Vec<MessageDescriptor>, package: &str, target: &str) -> (r: Option<EnumDescriptor>)
    ensures
        opt_map_view(r) == spec_find_enum_in_messages(msgs@.map_values(|m: MessageDescriptor| m@), package@, target@),
{
    let ghost views = msgs@.map_values(|m: MessageDescriptor| m@);
    let mut i: usize = 0;
    assert(views.skip(0) =~= views);
    while i < msgs.len()
        invariant
            views == msgs@.map_values(|m: MessageDescriptor| m@),
            i <= views.len(),
            spec_find_enum_in_messages(views, package@, target@)
                == spec_find_enum_in_messages(views.skip(i as int), package@, target@),
        decreases views.len() - i,
    {
        assert(views.skip(i as int)[0] == msgs@[i as int]@);
        let m = &msgs[i];
        let name = match &m.name {
            Some(n) => n.clone(),
            None => String::new(),
        };
        proof {
            reveal_strlit(".");
        }
        let prefix = name.concat(".");
        assert(prefix@ =~= opt_text(m@.name) + seq!['.']);
        assert(m@.enum_types == m.enum_types@.map_values(|e: EnumDescriptor| e@));
        let found = find_enum_qualified(&m.enum_types, package, prefix.as_str(), target);
        if found.is_some() {
            return found;
        }
        assert(views.skip(i as int).drop_first() =~= views.skip(i + 1));
        i = i + 1;
    }
    None
}

/// Finds the enum that a fully qualified type reference names, among the top-level enums of the
/// files and the enums declared in their top-level messages.
pub fn find_enum_by_name(descriptors: &FileDescriptorSet, type_ref: &str) -> (r: Option<EnumDescriptor>)
    ensures
        opt_map_view(r) == spec_find_enum_by_name(descriptors@, type_ref@),
{
    let target = strip_leading_dot(type_ref);
    let ghost views = descriptors@;
    let mut i: usize = 0;
    assert(views.skip(0) =~= views);
    while i < descriptors.files.len()
        invariant
            views == descriptors@,
            views.len() == descriptors.files@.len(),
            target@ == spec_strip_leading_dot(type_ref@),
            i <= views.len(),
            spec_find_enum_in_files(views, target@) == spec_find_enum_in_files(views.skip(i as int), target@),
        decreases views.len() - i,
    {
        let f: &FileDescriptor = &descriptors.files[i];
        assert(views.skip(i as int)[0] == f@);
        let package = match &f.package {
            Some(p) => p.clone(),
            None => String::new(),
        };
        proof {
            reveal_strlit("");
        }
        let found = find_enum_qualified(&f.enum_types, package.as_str(), "", target);
        assert(""@ =~= Seq::<char>::empty());
        if found.is_some() {
            return found;
        }
        let found = find_enum_in_messages(&f.message_types, package.as_str(), target);
        if found.is_some() {
            return found;
        }
        assert(views.skip(i as int).drop_first() =~= views.skip(i + 1));
        i = i + 1;
    }
    None
}

/// The first message whose qualified name (`package.Name`) is `target`.
pub open spec fn spec_find_message_qualified(
    msgs: Seq<MessageDescriptorView>,
    package: Seq<char>,
    target: Seq<char>,
) -> Option<MessageDescriptorView>
    decreases msgs.len(),
{
    if msgs.len() == 0 {
        None
    } else if spec_qualified(package, opt_text(msgs[0].name)) == target {
        Some(msgs[0])
    } else {
        spec_find_message_qualified(msgs.drop_first(), package, target)
    }
}

/// The first top-level message type of the files whose fully qualified name is `target`.
pub open spec fn spec_find_message_in_files(files: Seq<FileDescriptorView>, target: Seq<char>) -> Option<MessageDescriptorView>
    decreases files.len(),
{
    if files.len() == 0 {
        None
    } else {
        match spec_find_message_qualified(files[0].message_types, opt_text(files[0].package), target) {
            Some(m) => Some(m),
            None => spec_find_message_in_files(files.drop_first(), target),
        }
    }
}

/// The message type that a fully qualified type reference (with or without its leading '.')
/// names.
pub open spec fn spec_find_message_for_type(files: Seq<FileDescriptorView>, type_ref: Seq<char>) -> Option<MessageDescriptorView> {
    spec_find_message_in_files(files, spec_strip_leading_dot(type_ref))
}

fn find_message_qualified(msgs: &Vec<MessageDescriptor>, package: &str, target: &str) -> (r: Option<MessageDescriptor>)
    ensures
        opt_map_view(r) == spec_find_message_qualified(msgs@.map_values(|m: MessageDescriptor| m@), package@, target@),
{
    let ghost views = msgs@.map_values(|m: MessageDescriptor| m@);
    let wanted = String::from_str(target);
    let mut i: usize = 0;
    assert(views.skip(0) =~= views);
    while i < msgs.len()
        invariant
            views == msgs@.map_values(|m: MessageDescriptor| m@),
            wanted@ == target@,
            i <= views.len(),
            spec_find_message_qualified(views, package@, target@)
                == spec_find_message_qualified(views.skip(i as int), package@, target@),
        decreases views.len() - i,
    {
        assert(views.skip(i as int)[0] == msgs@[i as int]@);
        let m = &msgs[i];
        let name = match &m.name {
            Some(n) => n.clone(),
            None => String::new(),
        };
        let full = qualified(package, name.as_str());
        if full == wanted {
            return Some(m.duplicate());
        }
        assert(views.skip(i as int).drop_first() =~= views.skip(i + 1));
        i = i + 1;
    }
    None
}

/// Finds the top-level message type that a fully qualified type reference names.
pub fn find_message_descriptor_for_type(type_ref: &str, descriptors: &FileDescriptorSet) -> (r: Option<MessageDescriptor>)
    ensures
        opt_map_view(r) == spec_find_message_for_type(descriptors@, type_ref@),
{
    let target = strip_leading_dot(type_ref);
    let ghost views = descriptors@;
    let mut i: usize = 0;
    assert(views.skip(0) =~= views);
    while i < descriptors.files.len()
        invariant
            views == descriptors@,
            views.len() == descriptors.files@.len(),
            target@ == spec_strip_leading_dot(type_ref@),
            i <= views.len(),
            spec_find_message_in_files(views, target@) == spec_find_message_in_files(views.skip(i as int), target@),
        decreases views.len() - i,
    {
        let f: &FileDescriptor = &descriptors.files[i];
        assert(views.skip(i as int)[0] == f@);
        let package = match &f.package {
            Some(p) => p.clone(),
            None => String::new(),
        };
        let found = find_message_qualified(&f.message_types, package.as_str(), target);
        if found.is_some() {
            return found;
        }
        assert(views.skip(i as int).drop_first() =~= views.skip(i + 1));
        i = i + 1;
    }
    None
}

} // verus!
