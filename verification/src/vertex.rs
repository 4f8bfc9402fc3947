//! Vertex-attribute layout: from the field types of a record to the byte
//! offset, format name and shader location of each field.

use vstd::prelude::*;
use vstd::string::StringExecFns;

verus! {

/// The type of a record's field, as far as the layout depends on it.
#[derive(Debug, PartialEq, Eq)]
pub enum FieldType {
    /// A type written as a path; the string is the path's last segment.
    Path(String),
    /// A fixed-length array of an element type. The length is `None` where it
    /// is not written as an integer literal.
    Array(Box<FieldType>, Option<usize>),
    /// Any other type.
    Other,
}

/// The size and the format name of one attribute.
#[derive(Debug, PartialEq, Eq)]
pub struct AttrData {
    pub size_in_bytes: usize,
    pub format: String,
}

/// One attribute of a vertex buffer: where it starts, how it is encoded, and
/// the slot it is bound to.
#[derive(Debug, PartialEq, Eq)]
pub struct VertexAttribute {
    pub offset: u64,
    pub format: String,
    pub shader_location: u32,
}

/// The size in bytes of each of the scalar types.
pub open spec fn scalar_size() -> nat {
    4
}

/// The format name of a scalar type, where the name of the type is one of the
/// three that are recognised.
pub open spec fn scalar_format(name: Seq<char>) -> Option<Seq<char>> {
    if name == "f32"@ {
        Some("Float"@)
    } else if name == "u32"@ {
        Some("Uint"@)
    } else if name == "i32"@ {
        Some("Int"@)
    } else {
        None
    }
}

/// The decimal digit that names an array length from 1 to 4.
pub open spec fn length_suffix(len: int) -> Seq<char> {
    if len == 1 {
        "1"@
    } else if len == 2 {
        "2"@
    } else if len == 3 {
        "3"@
    } else {
        "4"@
    }
}

/// A scalar of a recognised name, or an array of one to four such scalars.
pub open spec fn is_supported(ty: FieldType) -> bool {
    match ty {
        FieldType::Path(name) => scalar_format(name@) is Some,
        FieldType::Array(elem, len) => match *elem {
            FieldType::Path(name) => scalar_format(name@) is Some && len is Some && 1
                <= len.unwrap() <= 4,
            _ => false,
        },
        FieldType::Other => false,
    }
}

/// The size in bytes of a supported field type.
pub open spec fn attr_size(ty: FieldType) -> nat {
    match ty {
        FieldType::Array(_, Some(len)) => scalar_size() * len as nat,
        _ => scalar_size(),
    }
}

/// The format name of a supported field type: that of the scalar, followed
/// for an array by its length.
pub open spec fn attr_format(ty: FieldType) -> Seq<char> {
    match ty {
        FieldType::Path(name) => scalar_format(name@).unwrap(),
        FieldType::Array(elem, Some(len)) => match *elem {
            FieldType::Path(name) => scalar_format(name@).unwrap() + length_suffix(len as int),
            _ => Seq::empty(),
        },
        _ => Seq::empty(),
    }
}

/// The byte offset of field `i`: the sizes of the fields before it, summed.
pub open spec fn offset_of(fields: Seq<FieldType>, i: int) -> nat
    decreases i,
{
    if i <= 0 {
        0
    } else {
        offset_of(fields, i - 1) + attr_size(fields[i - 1])
    }
}

impl AttrData {
    /// An attribute of the given size and format name.
    pub fn new(size_in_bytes: usize, format: &str) -> (data: AttrData)
        ensures
            data.size_in_bytes == size_in_bytes,
            data.format@ == format@,
    {
        AttrData { size_in_bytes, format: String::from_str(format) }
    }
}

/// The format name of the scalar type called `name`, if it is recognised.
fn scalar_format_of(name: &String) -> (out: Option<&'static str>)
    ensures
        match out {
            Some(f) => scalar_format(name@) == Some(f@),
            None => scalar_format(name@) is None,
        },
{
    if *name == String::from_str("f32") {
        Some("Float")
    } else if *name == String::from_str("u32") {
        Some("Uint")
    } else if *name == String::from_str("i32") {
        Some("Int")
    } else {
        None
    }
}

/// Whether a layout exists for the field type.
pub fn supports(ty: &FieldType) -> (ok: bool)
    ensures
        ok == is_supported(*ty),
{
    match ty {
        FieldType::Path(name) => scalar_format_of(name).is_some(),
        FieldType::Array(elem, len) => match &**elem {
            FieldType::Path(name) => match len {
                Some(l) => scalar_format_of(name).is_some() && 1 <= *l && *l <= 4,
                None => false,
            },
            _ => false,
        },
        FieldType::Other => false,
    }
}

/// The size and format name of a supported field type.
pub fn get_attr_data(ty: &FieldType) -> (data: AttrData)
    requires
        is_supported(*ty),
    ensures
        data.size_in_bytes == attr_size(*ty),
        data.format@ == attr_format(*ty),
    decreases *ty,
{
    match ty {
        FieldType::Path(name) => {
            let format = scalar_format_of(name).unwrap();
            AttrData::new(4, format)
        },
        FieldType::Array(elem, len) => {
            let AttrData { size_in_bytes, format } = get_attr_data(&**elem);
            let len = len.unwrap();
            let suffix = if len == 1 {
                "1"
            } else if len == 2 {
                "2"
            } else if len == 3 {
                "3"
            } else {
                "4"
            };
            AttrData { size_in_bytes: size_in_bytes * len, format: format.concat(suffix) }
        },
        FieldType::Other => unreached(),
    }
}

/// The attributes of a record with the given field types, one for each field
/// in order: offsets accumulate the sizes of the fields before, and shader
/// locations count up from zero.
pub fn vertex_macro_derive(fields: &[FieldType]) -> (attrs: Vec<VertexAttribute>)
    requires
        0 < fields@.len() <= u32::MAX,
        forall|i: int| 0 <= i < fields@.len() ==> is_supported(#[trigger] fields@[i]),
    ensures
        attrs@.len() == fields@.len(),
        forall|i: int|
            0 <= i < attrs@.len() ==> {
                &&& (#[trigger] attrs@[i]).offset == offset_of(fields@, i)
                &&& attrs@[i].format@ == attr_format(fields@[i])
                &&& attrs@[i].shader_location == i
            },
{
    let mut attrs: Vec<VertexAttribute> = Vec::new();
    let mut shader_location: u32 = 0;
    let mut offset: u64 = 0;
    let mut i: usize = 0;
    while i < fields.len()
        invariant
            i <= fields@.len() <= u32::MAX,
            forall|k: int| 0 <= k < fields@.len() ==> is_supported(#[trigger] fields@[k]),
            shader_location == i,
            offset == offset_of(fields@, i as int),
            offset <= 16 * i,
            attrs@.len() == i,
            forall|k: int|
                0 <= k < i ==> {
                    &&& (#[trigger] attrs@[k]).offset == offset_of(fields@, k)
                    &&& attrs@[k].format@ == attr_format(fields@[k])
                    &&& attrs@[k].shader_location == k
                },
        decreases fields@.len() - i,
    {
        let AttrData { size_in_bytes, format } = get_attr_data(&fields[i]);
        attrs.push(VertexAttribute { offset, format, shader_location });
        shader_location += 1;
        offset += size_in_bytes as u64;
        i += 1;
    }
    attrs
}

} // verus!
