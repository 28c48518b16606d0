//! Codec behaviour: tuples decode to exactly what was encoded, including
//! nulls, negative values and every scalar type; a full page refuses
//! further tuples.

use bustubx::codec::{decode_tuple, encode_tuple};
use bustubx::common::TupleMeta;
use bustubx::scalar::{Column, DataType, ScalarValue, Schema};
use bustubx::table_page::{TablePage, Tuple as PageTuple};
use bustubx::tuple::Tuple;

#[test]
pub fn test_tuple_codec_round_trip_all_types() {
    let schema = Schema::new(vec![
        Column::new("a".to_string(), DataType::Int8, false),
        Column::new("b".to_string(), DataType::Int16, false),
        Column::new("c".to_string(), DataType::Int32, false),
        Column::new("d".to_string(), DataType::Int64, false),
        Column::new("e".to_string(), DataType::Boolean, false),
    ]);
    let tuple = Tuple::new(
        schema.clone(),
        vec![
            (-7i8).into(),
            (-30000i16).into(),
            2000000000i32.into(),
            (-9000000000000000000i64).into(),
            true.into(),
        ],
    );
    let bytes = encode_tuple(&tuple);
    // one flag byte per column plus the fixed value widths
    assert_eq!(bytes.len(), 2 + 3 + 5 + 9 + 2);
    let (decoded, consumed) = decode_tuple(&bytes, &schema).unwrap();
    assert_eq!(consumed, bytes.len());
    assert_eq!(decoded.data, tuple.data);
}

#[test]
pub fn test_tuple_codec_round_trip_nulls() {
    let schema = Schema::new(vec![
        Column::new("a".to_string(), DataType::Int8, true),
        Column::new("b".to_string(), DataType::Int64, true),
    ]);
    let tuple = Tuple::new(
        schema.clone(),
        vec![ScalarValue::Int8(None), ScalarValue::Int64(None)],
    );
    let bytes = encode_tuple(&tuple);
    let (decoded, _) = decode_tuple(&bytes, &schema).unwrap();
    assert_eq!(decoded.data, tuple.data);
}

#[test]
pub fn test_decode_tuple_short_input() {
    let schema = Schema::new(vec![Column::new("a".to_string(), DataType::Int64, false)]);
    let bytes = vec![0u8; 4];
    assert!(decode_tuple(&bytes, &schema).is_none());
}

/// Filling a page with tuples eventually makes the next offset `None`:
/// the payloads and the slot directory may never overlap.
#[test]
pub fn test_table_page_capacity_limit() {
    let mut page = TablePage::new(0);
    let meta = TupleMeta {
        insert_txn_id: 0,
        delete_txn_id: 0,
        is_deleted: false,
    };
    let tuple = PageTuple::new(vec![9u8; 100]);
    let mut inserted = 0;
    loop {
        if page.get_next_tuple_offset(&meta, &tuple).is_none() {
            break;
        }
        page.insert_tuple(&meta, &tuple).unwrap();
        inserted += 1;
        assert!(inserted <= 100);
    }
    // 35 tuples of 116 bytes each (payload + slot entry) fill 4096 bytes
    assert_eq!(inserted, 35);
    assert!(page.insert_tuple(&meta, &tuple).is_none());
    // slot offsets decrease by the payload size, starting at the page end
    assert_eq!(page.tuple_info[0].0, 4096 - 100);
    assert_eq!(page.tuple_info[1].0, 4096 - 200);
}

/// The slotted-page scenario: offsets stack down from the page end and a
/// read returns the second payload intact.
#[test]
pub fn test_table_page_stacked_offsets() {
    let mut page = TablePage::new(7);
    let meta = TupleMeta {
        insert_txn_id: 0,
        delete_txn_id: 0,
        is_deleted: false,
    };
    page.insert_tuple(&meta, &PageTuple::new(vec![1, 1, 1])).unwrap();
    page.insert_tuple(&meta, &PageTuple::new(vec![2, 2, 2])).unwrap();
    page.insert_tuple(&meta, &PageTuple::new(vec![3, 3, 3])).unwrap();
    assert_eq!(page.next_page_id, 7);
    assert_eq!(page.num_tuples, 3);
    assert_eq!(page.tuple_info[0].0, 4093);
    assert_eq!(page.tuple_info[1].0, 4090);
    assert_eq!(page.tuple_info[2].0, 4087);
    let (_, t) = page.get_tuple(&bustubx::common::Rid::new(0, 1));
    assert_eq!(t.data, vec![2, 2, 2]);
}
