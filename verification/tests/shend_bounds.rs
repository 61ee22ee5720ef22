use openshmem_rs::shend_derive::{shend_bounds, DeriveShape, UnionError};

fn strings(xs: &[&str]) -> Vec<String> {
    xs.iter().map(|s| s.to_string()).collect()
}

#[test]
fn a_struct_bounds_each_field_type() {
    let shape = DeriveShape::Struct {
        where_predicates: strings(&["T: Copy"]),
        fields: strings(&["u32", "[T; 4]"]),
    };
    let b = shend_bounds(&shape).unwrap();
    assert_eq!(b.where_predicates, strings(&["T: Copy"]));
    assert_eq!(b.bounded_types, strings(&["u32", "[T; 4]"]));
}

#[test]
fn a_unit_struct_needs_no_bound() {
    let shape = DeriveShape::Struct { where_predicates: vec![], fields: vec![] };
    let b = shend_bounds(&shape).unwrap();
    assert!(b.where_predicates.is_empty());
    assert!(b.bounded_types.is_empty());
}

#[test]
fn an_enum_bounds_the_fields_of_every_variant_in_order() {
    let shape = DeriveShape::Enum {
        where_predicates: vec![],
        variants: vec![strings(&["u8"]), vec![], strings(&["A", "B"])],
    };
    let b = shend_bounds(&shape).unwrap();
    assert_eq!(b.bounded_types, strings(&["u8", "A", "B"]));
}

#[test]
fn a_union_is_refused() {
    assert!(matches!(shend_bounds(&DeriveShape::Union), Err(UnionError)));
}
