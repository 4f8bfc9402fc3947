use combinations::get_attr_data;
use combinations::punctuated;
use combinations::supports;
use combinations::vertex_macro_derive;
use combinations::AttrData;
use combinations::FieldType;

fn scalar(name: &str) -> FieldType {
    FieldType::Path(name.to_string())
}

fn array(elem: FieldType, len: usize) -> FieldType {
    FieldType::Array(Box::new(elem), Some(len))
}

#[test]
fn attr_data_keeps_what_it_is_given() {
    let data = AttrData::new(12, "Float3");
    assert_eq!(data.size_in_bytes, 12);
    assert_eq!(data.format, "Float3");
}

#[test]
fn scalars_are_four_bytes() {
    let float = get_attr_data(&scalar("f32"));
    assert_eq!((float.size_in_bytes, float.format.as_str()), (4, "Float"));
    let uint = get_attr_data(&scalar("u32"));
    assert_eq!((uint.size_in_bytes, uint.format.as_str()), (4, "Uint"));
    let int = get_attr_data(&scalar("i32"));
    assert_eq!((int.size_in_bytes, int.format.as_str()), (4, "Int"));
}

#[test]
fn arrays_multiply_the_size_and_name_the_length() {
    for (len, name) in [(1usize, "Float1"), (2, "Float2"), (3, "Float3"), (4, "Float4")] {
        let data = get_attr_data(&array(scalar("f32"), len));
        assert_eq!(data.size_in_bytes, 4 * len);
        assert_eq!(data.format, name);
    }
    let data = get_attr_data(&array(scalar("u32"), 2));
    assert_eq!((data.size_in_bytes, data.format.as_str()), (8, "Uint2"));
    let data = get_attr_data(&array(scalar("i32"), 4));
    assert_eq!((data.size_in_bytes, data.format.as_str()), (16, "Int4"));
}

#[test]
fn supported_types() {
    assert!(supports(&scalar("f32")));
    assert!(supports(&scalar("u32")));
    assert!(supports(&scalar("i32")));
    assert!(supports(&array(scalar("f32"), 1)));
    assert!(supports(&array(scalar("i32"), 4)));
}

#[test]
fn unsupported_types() {
    assert!(!supports(&scalar("f64")));
    assert!(!supports(&scalar("u8")));
    assert!(!supports(&scalar("")));
    assert!(!supports(&scalar("F32")));
    assert!(!supports(&FieldType::Other));
    assert!(!supports(&array(scalar("f32"), 0)));
    assert!(!supports(&array(scalar("f32"), 5)));
    assert!(!supports(&array(scalar("bool"), 2)));
    assert!(!supports(&array(FieldType::Other, 2)));
    assert!(!supports(&array(array(scalar("f32"), 2), 2)));
    assert!(!supports(&FieldType::Array(Box::new(scalar("f32")), None)));
}

#[test]
fn scalar_fields_are_laid_out_in_order() {
    let fields = [scalar("f32"), scalar("f32"), scalar("u32"), scalar("i32")];
    let attrs = vertex_macro_derive(&fields);
    assert_eq!(attrs.len(), 4);
    let mut offset = 0u64;
    assert_eq!(attrs[0].offset, offset);
    assert_eq!(attrs[0].shader_location, 0);
    assert_eq!(attrs[0].format, "Float");
    offset += 4;
    assert_eq!(attrs[1].offset, offset);
    assert_eq!(attrs[1].shader_location, 1);
    assert_eq!(attrs[1].format, "Float");
    offset += 4;
    assert_eq!(attrs[2].offset, offset);
    assert_eq!(attrs[2].shader_location, 2);
    assert_eq!(attrs[2].format, "Uint");
    offset += 4;
    assert_eq!(attrs[3].offset, offset);
    assert_eq!(attrs[3].shader_location, 3);
    assert_eq!(attrs[3].format, "Int");
}

#[test]
fn array_fields_push_the_offset_by_their_size() {
    let fields = [array(scalar("f32"), 3), array(scalar("f32"), 2)];
    let attrs = vertex_macro_derive(&fields);
    assert_eq!(attrs.len(), 2);
    assert_eq!(attrs[0].offset, 0);
    assert_eq!(attrs[0].shader_location, 0);
    assert_eq!(attrs[0].format, "Float3");
    assert_eq!(attrs[1].offset, 12);
    assert_eq!(attrs[1].shader_location, 1);
    assert_eq!(attrs[1].format, "Float2");
}

#[test]
fn two_scalars() {
    let fields = [scalar("f32"), scalar("f32")];
    let attrs = vertex_macro_derive(&fields);
    assert_eq!(attrs.len(), 2);
    assert_eq!(attrs[1].offset, 4);
}

#[test]
fn mixed_fields() {
    let fields = [array(scalar("f32"), 4), scalar("u32"), array(scalar("i32"), 2), scalar("f32")];
    let attrs = vertex_macro_derive(&fields);
    let seen: Vec<(u64, &str, u32)> =
        attrs.iter().map(|a| (a.offset, a.format.as_str(), a.shader_location)).collect();
    assert_eq!(seen, vec![(0, "Float4", 0), (16, "Uint", 1), (20, "Int2", 2), (28, "Float", 3)]);
}

#[test]
fn counting_up() {
    assert_eq!(punctuated(4), vec![0, 1, 2, 3]);
    assert_eq!(punctuated(1), vec![0]);
    assert_eq!(punctuated(0), Vec::<i32>::new());
    assert_eq!(punctuated(-3), Vec::<i32>::new());
}
