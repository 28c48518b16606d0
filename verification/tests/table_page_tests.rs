//! Slotted-page behaviour: stacked inserts, reads, metadata updates, and
//! the byte-exact serialisation round trip.

use bustubx::common::{Rid, TupleMeta, BUSTUBX_PAGE_SIZE};
use bustubx::table_page::{TablePage, Tuple};

#[test]
pub fn test_table_page_insert() {
    let mut table_page = TablePage::new(0);
    let meta = TupleMeta {
        insert_txn_id: 0,
        delete_txn_id: 0,
        is_deleted: false,
    };
    let tuple_id = table_page.insert_tuple(&meta, &Tuple::new(vec![1, 1, 1]));
    assert_eq!(tuple_id, Some(0));
    assert_eq!(table_page.num_tuples, 1);
    assert_eq!(table_page.num_deleted_tuples, 0);
    assert_eq!(table_page.tuple_info.len(), 1);
    assert_eq!(
        table_page.tuple_info[tuple_id.unwrap() as usize].0,
        BUSTUBX_PAGE_SIZE as u16 - 3
    );
    assert_eq!(table_page.tuple_info[tuple_id.unwrap() as usize].1, 3);
    assert_eq!(table_page.tuple_info[tuple_id.unwrap() as usize].2, meta);

    let tuple_id = table_page.insert_tuple(&meta, &Tuple::new(vec![1, 1, 1]));
    assert_eq!(tuple_id, Some(1));
    assert_eq!(table_page.num_tuples, 2);
    assert_eq!(table_page.num_deleted_tuples, 0);
    assert_eq!(table_page.tuple_info.len(), 2);
    assert_eq!(
        table_page.tuple_info[tuple_id.unwrap() as usize].0,
        BUSTUBX_PAGE_SIZE as u16 - 3 - 3
    );
    assert_eq!(table_page.tuple_info[tuple_id.unwrap() as usize].1, 3);
    assert_eq!(table_page.tuple_info[tuple_id.unwrap() as usize].2, meta);
}

#[test]
pub fn test_table_page_get_tuple() {
    let mut table_page = TablePage::new(0);
    let meta = TupleMeta {
        insert_txn_id: 0,
        delete_txn_id: 0,
        is_deleted: false,
    };
    let tuple_id = table_page.insert_tuple(&meta, &Tuple::new(vec![1, 1, 1]));
    assert_eq!(tuple_id, Some(0));
    let tuple_id = table_page.insert_tuple(&meta, &Tuple::new(vec![2, 2, 2]));
    assert_eq!(tuple_id, Some(1));
    let tuple_id = table_page.insert_tuple(&meta, &Tuple::new(vec![3, 3, 3]));
    assert_eq!(tuple_id, Some(2));

    let (tuple_meta, tuple) = table_page.get_tuple(&Rid::new(0, 0));
    assert_eq!(tuple_meta, meta);
    assert_eq!(tuple.data, vec![1, 1, 1]);
    let (_tuple_meta, tuple) = table_page.get_tuple(&Rid::new(0, 1));
    assert_eq!(tuple.data, vec![2, 2, 2]);
    let (_tuple_meta, tuple) = table_page.get_tuple(&Rid::new(0, 2));
    assert_eq!(tuple.data, vec![3, 3, 3]);
}

#[test]
pub fn test_table_page_update_tuple_meta() {
    let mut table_page = TablePage::new(0);
    let meta = TupleMeta {
        insert_txn_id: 0,
        delete_txn_id: 0,
        is_deleted: false,
    };
    let _tuple_id = table_page.insert_tuple(&meta, &Tuple::new(vec![1, 1, 1]));
    let _tuple_id = table_page.insert_tuple(&meta, &Tuple::new(vec![2, 2, 2]));
    let _tuple_id = table_page.insert_tuple(&meta, &Tuple::new(vec![3, 3, 3]));

    let mut tuple_meta = table_page.get_tuple_meta(&Rid::new(0, 0));
    tuple_meta.is_deleted = true;
    tuple_meta.delete_txn_id = 1;
    tuple_meta.insert_txn_id = 2;

    table_page.update_tuple_meta(&tuple_meta, &Rid::new(0, 0));
    let tuple_meta = table_page.get_tuple_meta(&Rid::new(0, 0));
    assert_eq!(tuple_meta.is_deleted, true);
    assert_eq!(tuple_meta.delete_txn_id, 1);
    assert_eq!(tuple_meta.insert_txn_id, 2);
}

#[test]
pub fn test_table_page_from_to_bytes() {
    let mut table_page = TablePage::new(1);
    let meta = TupleMeta {
        insert_txn_id: 0,
        delete_txn_id: 0,
        is_deleted: false,
    };
    let _tuple_id1 = table_page.insert_tuple(&meta, &Tuple::new(vec![1, 1, 1]));
    let tuple_id2 = table_page.insert_tuple(&meta, &Tuple::new(vec![2, 2, 2]));
    let _tuple_id3 = table_page.insert_tuple(&meta, &Tuple::new(vec![3, 3, 3]));

    let bytes = table_page.to_bytes();
    let table_page2 = TablePage::from_bytes(&bytes);
    assert_eq!(table_page2.next_page_id, 1);
    assert_eq!(table_page2.num_tuples, 3);
    assert_eq!(table_page2.num_deleted_tuples, 0);
    assert_eq!(table_page2.tuple_info.len(), 3);
    assert_eq!(table_page2.tuple_info[0].0, BUSTUBX_PAGE_SIZE as u16 - 3);
    assert_eq!(table_page2.tuple_info[0].1, 3);
    assert_eq!(table_page2.tuple_info[0].2, meta);
    assert_eq!(
        table_page2.tuple_info[1].0,
        BUSTUBX_PAGE_SIZE as u16 - 3 - 3
    );
    assert_eq!(table_page2.tuple_info[1].1, 3);
    assert_eq!(table_page2.tuple_info[1].2, meta);
    assert_eq!(
        table_page2.tuple_info[2].0,
        BUSTUBX_PAGE_SIZE as u16 - 3 - 3 - 3
    );
    assert_eq!(table_page2.tuple_info[2].1, 3);
    assert_eq!(table_page2.tuple_info[2].2, meta);

    let (tuple_meta, tuple) = table_page2.get_tuple(&Rid::new(0, tuple_id2.unwrap() as u32));
    assert_eq!(tuple_meta, meta);
    assert_eq!(tuple.data, vec![2, 2, 2]);
}
