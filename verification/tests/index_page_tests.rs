//! B+tree index page behaviour: sorted inserts, lookups and deletes on
//! internal and leaf pages.

use bustubx::common::Rid;
use bustubx::scalar::ScalarValue;
use bustubx::index_page::{BPlusTreeInternalPage, BPlusTreeLeafPage};
use bustubx::scalar::{Column, DataType, Schema};
use bustubx::tuple::Tuple;

fn key_schema() -> Schema {
    Schema::new(vec![
        Column::new("a".to_string(), DataType::Int8, false),
        Column::new("b".to_string(), DataType::Int16, false),
    ])
}

#[test]
pub fn test_internal_page_insert() {
    let key_schema = key_schema();
    let mut internal_page = BPlusTreeInternalPage::new(key_schema.clone(), 3);
    internal_page.insert(Tuple::empty(key_schema.clone()), 0, &key_schema);
    internal_page.insert(
        Tuple::new(key_schema.clone(), vec![2i8.into(), 2i16.into()]),
        2,
        &key_schema,
    );
    internal_page.insert(
        Tuple::new(key_schema.clone(), vec![1i8.into(), 1i16.into()]),
        1,
        &key_schema,
    );
    assert_eq!(internal_page.header.current_size, 3);
    assert_eq!(
        internal_page.array[0].0.data,
        Tuple::empty(key_schema.clone()).data
    );
    assert_eq!(internal_page.array[0].1, 0);
    assert_eq!(internal_page.array[1].0.data, vec![1i8.into(), 1i16.into()]);
    assert_eq!(internal_page.array[1].1, 1);
    assert_eq!(internal_page.array[2].0.data, vec![2i8.into(), 2i16.into()]);
    assert_eq!(internal_page.array[2].1, 2);
}

#[test]
pub fn test_leaf_page_insert() {
    let key_schema = key_schema();
    let mut leaf_page = BPlusTreeLeafPage::new(key_schema.clone(), 3);
    leaf_page.insert(
        Tuple::new(key_schema.clone(), vec![2i8.into(), 2i16.into()]),
        Rid::new(2, 2),
        &key_schema,
    );
    leaf_page.insert(
        Tuple::new(key_schema.clone(), vec![1i8.into(), 1i16.into()]),
        Rid::new(1, 1),
        &key_schema,
    );
    leaf_page.insert(
        Tuple::new(key_schema.clone(), vec![3i8.into(), 3i16.into()]),
        Rid::new(3, 3),
        &key_schema,
    );
    assert_eq!(leaf_page.header.current_size, 3);
    assert_eq!(leaf_page.array[0].0.data, vec![1i8.into(), 1i16.into()]);
    assert_eq!(leaf_page.array[0].1, Rid::new(1, 1));
    assert_eq!(leaf_page.array[1].0.data, vec![2i8.into(), 2i16.into()]);
    assert_eq!(leaf_page.array[1].1, Rid::new(2, 2));
    assert_eq!(leaf_page.array[2].0.data, vec![3i8.into(), 3i16.into()]);
    assert_eq!(leaf_page.array[2].1, Rid::new(3, 3));
}

#[test]
pub fn test_internal_page_look_up() {
    let key_schema = key_schema();
    let mut internal_page = BPlusTreeInternalPage::new(key_schema.clone(), 5);
    internal_page.insert(Tuple::empty(key_schema.clone()), 0, &key_schema);
    internal_page.insert(
        Tuple::new(key_schema.clone(), vec![2i8.into(), 2i16.into()]),
        2,
        &key_schema,
    );
    internal_page.insert(
        Tuple::new(key_schema.clone(), vec![1i8.into(), 1i16.into()]),
        1,
        &key_schema,
    );
    internal_page.insert(
        Tuple::new(key_schema.clone(), vec![3i8.into(), 3i16.into()]),
        3,
        &key_schema,
    );
    internal_page.insert(
        Tuple::new(key_schema.clone(), vec![4i8.into(), 4i16.into()]),
        4,
        &key_schema,
    );

    assert_eq!(
        internal_page.look_up(
            &Tuple::new(key_schema.clone(), vec![0i8.into(), 0i16.into()]),
            &key_schema
        ),
        0
    );
    assert_eq!(
        internal_page.look_up(
            &Tuple::new(key_schema.clone(), vec![3i8.into(), 3i16.into()]),
            &key_schema
        ),
        3
    );
    assert_eq!(
        internal_page.look_up(
            &Tuple::new(key_schema.clone(), vec![5i8.into(), 5i16.into()]),
            &key_schema
        ),
        4
    );

    let mut internal_page = BPlusTreeInternalPage::new(key_schema.clone(), 2);
    internal_page.insert(Tuple::empty(key_schema.clone()), 0, &key_schema);
    internal_page.insert(
        Tuple::new(key_schema.clone(), vec![1i8.into(), 1i16.into()]),
        1,
        &key_schema,
    );

    assert_eq!(
        internal_page.look_up(
            &Tuple::new(key_schema.clone(), vec![0i8.into(), 0i16.into()]),
            &key_schema
        ),
        0
    );
    assert_eq!(
        internal_page.look_up(
            &Tuple::new(key_schema.clone(), vec![1i8.into(), 1i16.into()]),
            &key_schema
        ),
        1
    );
    assert_eq!(
        internal_page.look_up(
            &Tuple::new(key_schema.clone(), vec![2i8.into(), 2i16.into()]),
            &key_schema
        ),
        1
    );
}

#[test]
pub fn test_leaf_page_look_up() {
    let key_schema = key_schema();
    let mut leaf_page = BPlusTreeLeafPage::new(key_schema.clone(), 5);
    leaf_page.insert(
        Tuple::new(key_schema.clone(), vec![2i8.into(), 2i16.into()]),
        Rid::new(2, 2),
        &key_schema,
    );
    leaf_page.insert(
        Tuple::new(key_schema.clone(), vec![1i8.into(), 1i16.into()]),
        Rid::new(1, 1),
        &key_schema,
    );
    leaf_page.insert(
        Tuple::new(key_schema.clone(), vec![3i8.into(), 3i16.into()]),
        Rid::new(3, 3),
        &key_schema,
    );
    leaf_page.insert(
        Tuple::new(key_schema.clone(), vec![5i8.into(), 5i16.into()]),
        Rid::new(5, 5),
        &key_schema,
    );
    leaf_page.insert(
        Tuple::new(key_schema.clone(), vec![4i8.into(), 4i16.into()]),
        Rid::new(4, 4),
        &key_schema,
    );
    assert_eq!(
        leaf_page.look_up(
            &Tuple::new(key_schema.clone(), vec![0i8.into(), 0i16.into()]),
            &key_schema
        ),
        None
    );
    assert_eq!(
        leaf_page.look_up(
            &Tuple::new(key_schema.clone(), vec![2i8.into(), 2i16.into()]),
            &key_schema
        ),
        Some(Rid::new(2, 2))
    );
    assert_eq!(
        leaf_page.look_up(
            &Tuple::new(key_schema.clone(), vec![3i8.into(), 3i16.into()]),
            &key_schema
        ),
        Some(Rid::new(3, 3))
    );
    assert_eq!(
        leaf_page.look_up(
            &Tuple::new(key_schema.clone(), vec![6i8.into(), 6i16.into()]),
            &key_schema
        ),
        None
    );

    let mut leaf_page = BPlusTreeLeafPage::new(key_schema.clone(), 2);
    leaf_page.insert(
        Tuple::new(key_schema.clone(), vec![2i8.into(), 2i16.into()]),
        Rid::new(2, 2),
        &key_schema,
    );
    leaf_page.insert(
        Tuple::new(key_schema.clone(), vec![1i8.into(), 1i16.into()]),
        Rid::new(1, 1),
        &key_schema,
    );
    assert_eq!(
        leaf_page.look_up(
            &Tuple::new(
                key_schema.clone(),
                vec![ScalarValue::Int8(None), ScalarValue::Int16(None)]
            ),
            &key_schema
        ),
        None
    );
    assert_eq!(
        leaf_page.look_up(
            &Tuple::new(key_schema.clone(), vec![1i8.into(), 1i16.into()]),
            &key_schema
        ),
        Some(Rid::new(1, 1))
    );
    assert_eq!(
        leaf_page.look_up(
            &Tuple::new(key_schema.clone(), vec![2i8.into(), 2i16.into()]),
            &key_schema
        ),
        Some(Rid::new(2, 2))
    );
    assert_eq!(
        leaf_page.look_up(
            &Tuple::new(key_schema.clone(), vec![3i8.into(), 3i16.into()]),
            &key_schema
        ),
        None
    );
}

#[test]
pub fn test_internal_page_delete() {
    let key_schema = key_schema();
    let mut internal_page = BPlusTreeInternalPage::new(key_schema.clone(), 5);
    internal_page.insert(Tuple::empty(key_schema.clone()), 0, &key_schema);
    internal_page.insert(
        Tuple::new(key_schema.clone(), vec![2i8.into(), 2i16.into()]),
        2,
        &key_schema,
    );
    internal_page.insert(
        Tuple::new(key_schema.clone(), vec![1i8.into(), 1i16.into()]),
        1,
        &key_schema,
    );
    internal_page.insert(
        Tuple::new(key_schema.clone(), vec![3i8.into(), 3i16.into()]),
        3,
        &key_schema,
    );
    internal_page.insert(
        Tuple::new(key_schema.clone(), vec![4i8.into(), 4i16.into()]),
        4,
        &key_schema,
    );

    internal_page.delete(
        &Tuple::new(key_schema.clone(), vec![2i8.into(), 2i16.into()]),
        &key_schema,
    );
    assert_eq!(internal_page.header.current_size, 4);
    assert_eq!(
        internal_page.array[0].0.data,
        vec![ScalarValue::Int8(None), ScalarValue::Int16(None)]
    );
    assert_eq!(internal_page.array[0].1, 0);
    assert_eq!(internal_page.array[1].0.data, vec![1i8.into(), 1i16.into()]);
    assert_eq!(internal_page.array[1].1, 1);
    assert_eq!(internal_page.array[2].0.data, vec![3i8.into(), 3i16.into()]);
    assert_eq!(internal_page.array[2].1, 3);
    assert_eq!(internal_page.array[3].0.data, vec![4i8.into(), 4i16.into()]);
    assert_eq!(internal_page.array[3].1, 4);
    internal_page.delete(
        &Tuple::new(key_schema.clone(), vec![4i8.into(), 4i16.into()]),
        &key_schema,
    );
    assert_eq!(internal_page.header.current_size, 3);
    internal_page.delete(
        &Tuple::new(key_schema.clone(), vec![3i8.into(), 3i16.into()]),
        &key_schema,
    );
    assert_eq!(internal_page.header.current_size, 2);
    internal_page.delete(
        &Tuple::new(key_schema.clone(), vec![1i8.into(), 1i16.into()]),
        &key_schema,
    );
    assert_eq!(internal_page.header.current_size, 0);
    internal_page.delete(
        &Tuple::new(key_schema.clone(), vec![1i8.into(), 1i16.into()]),
        &key_schema,
    );
    assert_eq!(internal_page.header.current_size, 0);
}

#[test]
pub fn test_leaf_page_delete() {
    let key_schema = key_schema();
    let mut leaf_page = BPlusTreeLeafPage::new(key_schema.clone(), 5);
    leaf_page.insert(
        Tuple::new(key_schema.clone(), vec![2i8.into(), 2i16.into()]),
        Rid::new(2, 2),
        &key_schema,
    );
    leaf_page.insert(
        Tuple::new(key_schema.clone(), vec![1i8.into(), 1i16.into()]),
        Rid::new(1, 1),
        &key_schema,
    );
    leaf_page.insert(
        Tuple::new(key_schema.clone(), vec![3i8.into(), 3i16.into()]),
        Rid::new(3, 3),
        &key_schema,
    );
    leaf_page.insert(
        Tuple::new(key_schema.clone(), vec![5i8.into(), 5i16.into()]),
        Rid::new(5, 5),
        &key_schema,
    );
    leaf_page.insert(
        Tuple::new(key_schema.clone(), vec![4i8.into(), 4i16.into()]),
        Rid::new(4, 4),
        &key_schema,
    );

    leaf_page.delete(
        &Tuple::new(key_schema.clone(), vec![2i8.into(), 2i16.into()]),
        &key_schema,
    );
    assert_eq!(leaf_page.header.current_size, 4);
    assert_eq!(leaf_page.array[0].0.data, vec![1i8.into(), 1i16.into()]);
    assert_eq!(leaf_page.array[0].1, Rid::new(1, 1));
    assert_eq!(leaf_page.array[1].0.data, vec![3i8.into(), 3i16.into()]);
    assert_eq!(leaf_page.array[1].1, Rid::new(3, 3));
    assert_eq!(leaf_page.array[2].0.data, vec![4i8.into(), 4i16.into()]);
    assert_eq!(leaf_page.array[2].1, Rid::new(4, 4));
    assert_eq!(leaf_page.array[3].0.data, vec![5i8.into(), 5i16.into()]);
    assert_eq!(leaf_page.array[3].1, Rid::new(5, 5));
    leaf_page.delete(
        &Tuple::new(key_schema.clone(), vec![3i8.into(), 3i16.into()]),
        &key_schema,
    );
    assert_eq!(leaf_page.header.current_size, 3);
    leaf_page.delete(
        &Tuple::new(key_schema.clone(), vec![5i8.into(), 5i16.into()]),
        &key_schema,
    );
    assert_eq!(leaf_page.header.current_size, 2);
    leaf_page.delete(
        &Tuple::new(key_schema.clone(), vec![1i8.into(), 1i16.into()]),
        &key_schema,
    );
    assert_eq!(leaf_page.header.current_size, 1);
    assert_eq!(leaf_page.array[0].0.data, vec![4i8.into(), 4i16.into()]);
    assert_eq!(leaf_page.array[0].1, Rid::new(4, 4));
    leaf_page.delete(
        &Tuple::new(key_schema.clone(), vec![4i8.into(), 4i16.into()]),
        &key_schema,
    );
    assert_eq!(leaf_page.header.current_size, 0);
    leaf_page.delete(
        &Tuple::new(key_schema.clone(), vec![4i8.into(), 4i16.into()]),
        &key_schema,
    );
    assert_eq!(leaf_page.header.current_size, 0);
}
