//! Table heap behaviour over the buffer pool: inserts, reads, metadata
//! updates and in-order iteration, including a heap that spills onto a
//! second page.

use bustubx::buffer_pool::BufferPoolManager;
use bustubx::common::TupleMeta;
use bustubx::disk::DiskManager;
use bustubx::scalar::{Column, DataType, Schema};
use bustubx::table_heap::TableHeap;
use bustubx::tuple::Tuple;

fn two_column_schema() -> Schema {
    Schema::new(vec![
        Column::new("a".to_string(), DataType::Int8, false),
        Column::new("b".to_string(), DataType::Int16, false),
    ])
}

#[test]
pub fn test_table_heap_update_tuple_meta() {
    let schema = two_column_schema();
    let disk_manager = DiskManager::new();
    let buffer_pool = BufferPoolManager::new(1000, disk_manager);
    let mut table_heap = TableHeap::try_new(schema.clone(), buffer_pool).unwrap();
    let meta = TupleMeta {
        insert_txn_id: 0,
        delete_txn_id: 0,
        is_deleted: false,
    };

    let _rid1 = table_heap
        .insert_tuple(&meta, &Tuple::new(schema.clone(), vec![1i8.into(), 1i16.into()]))
        .unwrap();
    let rid2 = table_heap
        .insert_tuple(&meta, &Tuple::new(schema.clone(), vec![2i8.into(), 2i16.into()]))
        .unwrap();
    let _rid3 = table_heap
        .insert_tuple(&meta, &Tuple::new(schema.clone(), vec![3i8.into(), 3i16.into()]))
        .unwrap();

    let mut meta = table_heap.tuple_meta(rid2).unwrap();
    meta.insert_txn_id = 1;
    meta.delete_txn_id = 2;
    meta.is_deleted = true;
    table_heap.update_tuple_meta(&meta, rid2).unwrap();

    let meta = table_heap.tuple_meta(rid2).unwrap();
    assert_eq!(meta.insert_txn_id, 1);
    assert_eq!(meta.delete_txn_id, 2);
    assert!(meta.is_deleted);
}

#[test]
pub fn test_table_heap_insert_tuple() {
    let schema = two_column_schema();
    let disk_manager = DiskManager::new();
    let buffer_pool = BufferPoolManager::new(1000, disk_manager);
    let mut table_heap = TableHeap::try_new(schema.clone(), buffer_pool).unwrap();

    let meta1 = TupleMeta {
        insert_txn_id: 1,
        delete_txn_id: 1,
        is_deleted: false,
    };
    let rid1 = table_heap
        .insert_tuple(&meta1, &Tuple::new(schema.clone(), vec![1i8.into(), 1i16.into()]))
        .unwrap();
    let meta2 = TupleMeta {
        insert_txn_id: 2,
        delete_txn_id: 2,
        is_deleted: false,
    };
    let rid2 = table_heap
        .insert_tuple(&meta2, &Tuple::new(schema.clone(), vec![2i8.into(), 2i16.into()]))
        .unwrap();
    let meta3 = TupleMeta {
        insert_txn_id: 3,
        delete_txn_id: 3,
        is_deleted: false,
    };
    let rid3 = table_heap
        .insert_tuple(&meta3, &Tuple::new(schema.clone(), vec![3i8.into(), 3i16.into()]))
        .unwrap();

    let (meta, tuple) = table_heap.tuple(rid1).unwrap();
    assert_eq!(meta, meta1);
    assert_eq!(tuple.data, vec![1i8.into(), 1i16.into()]);

    let (meta, tuple) = table_heap.tuple(rid2).unwrap();
    assert_eq!(meta, meta2);
    assert_eq!(tuple.data, vec![2i8.into(), 2i16.into()]);

    let (meta, tuple) = table_heap.tuple(rid3).unwrap();
    assert_eq!(meta, meta3);
    assert_eq!(tuple.data, vec![3i8.into(), 3i16.into()]);
}

#[test]
pub fn test_table_heap_iterator() {
    let schema = two_column_schema();
    let disk_manager = DiskManager::new();
    let buffer_pool = BufferPoolManager::new(1000, disk_manager);
    let mut table_heap = TableHeap::try_new(schema.clone(), buffer_pool).unwrap();

    let meta1 = TupleMeta {
        insert_txn_id: 1,
        delete_txn_id: 1,
        is_deleted: false,
    };
    let _rid1 = table_heap
        .insert_tuple(&meta1, &Tuple::new(schema.clone(), vec![1i8.into(), 1i16.into()]))
        .unwrap();
    let meta2 = TupleMeta {
        insert_txn_id: 2,
        delete_txn_id: 2,
        is_deleted: false,
    };
    let _rid2 = table_heap
        .insert_tuple(&meta2, &Tuple::new(schema.clone(), vec![2i8.into(), 2i16.into()]))
        .unwrap();
    let meta3 = TupleMeta {
        insert_txn_id: 3,
        delete_txn_id: 3,
        is_deleted: false,
    };
    let _rid3 = table_heap
        .insert_tuple(&meta3, &Tuple::new(schema.clone(), vec![3i8.into(), 3i16.into()]))
        .unwrap();

    let mut iterator = table_heap.iter(None, None);

    let (meta, tuple) = iterator.next(&mut table_heap).unwrap();
    assert_eq!(meta, meta1);
    assert_eq!(tuple.data, vec![1i8.into(), 1i16.into()]);

    let (meta, tuple) = iterator.next(&mut table_heap).unwrap();
    assert_eq!(meta, meta2);
    assert_eq!(tuple.data, vec![2i8.into(), 2i16.into()]);

    let (meta, tuple) = iterator.next(&mut table_heap).unwrap();
    assert_eq!(meta, meta3);
    assert_eq!(tuple.data, vec![3i8.into(), 3i16.into()]);

    assert!(iterator.next(&mut table_heap).is_none());
}

/// Three tuples of 2000 encoded bytes spill the heap onto a second page,
/// and the iterator still yields all three in insertion order.
#[test]
pub fn test_table_heap_spill_to_second_page() {
    // 1000 nullable one-byte columns encode to exactly 2000 bytes
    let mut columns = Vec::new();
    for _ in 0..1000 {
        columns.push(Column::new("c".to_string(), DataType::Int8, false));
    }
    let schema = Schema::new(columns);
    let make_tuple = |v: i8| {
        let mut vals = Vec::new();
        for _ in 0..1000 {
            vals.push(v.into());
        }
        Tuple::new(schema.clone(), vals)
    };

    let disk_manager = DiskManager::new();
    let buffer_pool = BufferPoolManager::new(1000, disk_manager);
    let mut table_heap = TableHeap::try_new(schema.clone(), buffer_pool).unwrap();
    let meta = TupleMeta {
        insert_txn_id: 0,
        delete_txn_id: 0,
        is_deleted: false,
    };

    table_heap.insert_tuple(&meta, &make_tuple(1)).unwrap();
    assert_eq!(table_heap.first_page_id, 0);
    assert_eq!(table_heap.last_page_id, 0);

    table_heap.insert_tuple(&meta, &make_tuple(2)).unwrap();
    assert_eq!(table_heap.first_page_id, 0);
    assert_eq!(table_heap.last_page_id, 0);

    table_heap.insert_tuple(&meta, &make_tuple(3)).unwrap();
    assert_eq!(table_heap.first_page_id, 0);
    assert_eq!(table_heap.last_page_id, 1);

    let mut iterator = table_heap.iter(None, None);
    let (_, t1) = iterator.next(&mut table_heap).unwrap();
    assert_eq!(t1.data, make_tuple(1).data);
    let (_, t2) = iterator.next(&mut table_heap).unwrap();
    assert_eq!(t2.data, make_tuple(2).data);
    let (_, t3) = iterator.next(&mut table_heap).unwrap();
    assert_eq!(t3.data, make_tuple(3).data);
    assert!(iterator.next(&mut table_heap).is_none());
}

/// A tuple larger than an empty page is rejected, never split.
#[test]
pub fn test_table_heap_rejects_oversized_tuple() {
    let mut columns = Vec::new();
    for _ in 0..2050 {
        columns.push(Column::new("c".to_string(), DataType::Int8, false));
    }
    let schema = Schema::new(columns);
    let mut vals = Vec::new();
    for _ in 0..2050 {
        vals.push(7i8.into());
    }
    let big = Tuple::new(schema.clone(), vals);

    let disk_manager = DiskManager::new();
    let buffer_pool = BufferPoolManager::new(10, disk_manager);
    let mut table_heap = TableHeap::try_new(schema.clone(), buffer_pool).unwrap();
    let meta = TupleMeta {
        insert_txn_id: 0,
        delete_txn_id: 0,
        is_deleted: false,
    };
    let r = table_heap.insert_tuple(&meta, &big);
    assert_eq!(r, Err(bustubx::error::BustubxError::TupleTooLarge));
}
