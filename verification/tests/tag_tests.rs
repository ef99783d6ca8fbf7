use sound_manager::catalog::create_schema;
use sound_manager::model::DatabaseData;
use sound_manager::store::{open_store_in_memory, query_tag_rows};
use sound_manager::tag::ROOT_TAG_ID;
use sound_manager::Error;

fn setup_tags() -> (DatabaseData, rusqlite::Connection) {
    let conn = open_store_in_memory().unwrap();
    create_schema(&conn).unwrap();
    let data = DatabaseData::new_empty(String::from("test_database"));
    (data, conn)
}

fn reopen_tags(conn: &rusqlite::Connection) -> DatabaseData {
    let rows = query_tag_rows(
        conn,
        "SELECT id, name, parent, position, color FROM tags WHERE deleted IS NULL",
    )
    .unwrap();
    let mut data = DatabaseData::new_empty(String::from("test_database"));
    data.load_tags(&rows).unwrap();
    data
}

#[test]
fn test_new_tag() {
    const TAGS_NUM: usize = 10;
    let (mut data, db) = setup_tags();

    let mut tag_ids: [i32; TAGS_NUM] = [0; TAGS_NUM];
    for (i, tag_id) in tag_ids.iter_mut().enumerate() {
        *tag_id = data.new_tag(format!("tag{i}"), &db).unwrap();
    }

    let children = data.children_of_tag(ROOT_TAG_ID);
    assert_eq!(children, tag_ids.to_vec());
    for i in 0..TAGS_NUM {
        let tag_i = data.get_tag(tag_ids[i]).unwrap();
        assert_eq!(tag_i.name, format!("tag{i}"));
        assert_eq!(tag_i.color, 0);
        assert_eq!(tag_i.parent_id, ROOT_TAG_ID);
        assert_eq!(data.children_of_tag(tag_ids[i]).len(), 0);
        assert_eq!(tag_i.position, i32::try_from(i).unwrap());
    }

    for i in 0..TAGS_NUM {
        match data.new_tag(format!("tag{i}"), &db) {
            Err(Error::TagAlreadyExists(..)) => (),
            other => panic!("expected TagAlreadyExists, got {:?}", other.is_ok()),
        }
    }
}

#[test]
fn test_set_tag_color() {
    const TAGS_NUM: usize = 10;
    let (mut data, db) = setup_tags();

    let mut expected: Vec<(i32, i32)> = Vec::new();
    for i in 0..TAGS_NUM {
        let tag_id = data.new_tag(format!("tag{i}"), &db).unwrap();
        let tag_color = i32::try_from(i).unwrap();
        data.set_tag_color(tag_id, tag_color, &db).unwrap();
        expected.push((tag_id, tag_color));
    }

    let mut actual: Vec<(i32, i32)> = Vec::new();
    for tag_id in data.children_of_tag(ROOT_TAG_ID) {
        let tag = data.get_tag(tag_id).unwrap();
        actual.push((tag.id, tag.color));
    }
    assert_eq!(actual, expected);
}

#[test]
fn test_reorder_tag_reparent() {
    const TAGS_NUM: usize = 10;
    let (mut data, db) = setup_tags();

    let mut tag_ids: [i32; TAGS_NUM] = [0; TAGS_NUM];
    for (i, tag_id) in tag_ids.iter_mut().enumerate() {
        *tag_id = data.new_tag(format!("tag{i}"), &db).unwrap();
    }

    // Reparent tag 1..TAGS_NUM to tag 0 by appending.
    for i in 1..TAGS_NUM {
        data.reorder_tag(tag_ids[i], tag_ids[0], -1, &db).unwrap();

        assert_eq!(data.children_of_tag(ROOT_TAG_ID).len(), TAGS_NUM - i);
        let children = data.children_of_tag(tag_ids[0]);
        assert_eq!(children, tag_ids[1..=i].to_vec());

        let tag_i = data.get_tag(tag_ids[i]).unwrap();
        assert_eq!(tag_i.parent_id, tag_ids[0]);
        assert_eq!(tag_i.position, i32::try_from(i).unwrap() - 1);
    }
}

#[test]
fn test_reorder_tag_same_parent() {
    const TAGS_NUM: usize = 10;
    let (mut data, db) = setup_tags();

    let mut tag_ids: [i32; TAGS_NUM] = [0; TAGS_NUM];
    for (i, tag_id) in tag_ids.iter_mut().enumerate() {
        *tag_id = data.new_tag(format!("tag{i}"), &db).unwrap();
    }

    // 0 - [1, 2, 3, 4, 5, 6, 7, 8, 9]
    for i in 1..TAGS_NUM {
        data.reorder_tag(tag_ids[i], tag_ids[0], -1, &db).unwrap();
    }
    let children = data.children_of_tag(tag_ids[0]);
    assert_eq!(children, [1, 2, 3, 4, 5, 6, 7, 8, 9].map(|i| tag_ids[i]).to_vec());
    let positions: Vec<i32> =
        children.iter().map(|id| data.get_tag(*id).unwrap().position).collect();
    assert_eq!(positions, vec![0, 1, 2, 3, 4, 5, 6, 7, 8]);

    // Move tag 1 to position 8.
    // 0 - [2, 3, 4, 5, 6, 7, 8, 9, 1]
    data.reorder_tag(tag_ids[1], tag_ids[0], 8, &db).unwrap();
    let children = data.children_of_tag(tag_ids[0]);
    assert_eq!(children, [2, 3, 4, 5, 6, 7, 8, 9, 1].map(|i| tag_ids[i]).to_vec());
    let positions: Vec<i32> =
        children.iter().map(|id| data.get_tag(*id).unwrap().position).collect();
    assert_eq!(positions, vec![0, 1, 2, 3, 4, 5, 6, 7, 8]);

    // Move tag 1 to position 0.
    // 0 - [1, 2, 3, 4, 5, 6, 7, 8, 9]
    data.reorder_tag(tag_ids[1], tag_ids[0], 0, &db).unwrap();
    let children = data.children_of_tag(tag_ids[0]);
    assert_eq!(children, [1, 2, 3, 4, 5, 6, 7, 8, 9].map(|i| tag_ids[i]).to_vec());
    let positions: Vec<i32> =
        children.iter().map(|id| data.get_tag(*id).unwrap().position).collect();
    assert_eq!(positions, vec![0, 1, 2, 3, 4, 5, 6, 7, 8]);

    // Move tag 7 to position 2.
    // 0 - [1, 2, 7, 3, 4, 5, 6, 8, 9]
    data.reorder_tag(tag_ids[7], tag_ids[0], 2, &db).unwrap();
    let children = data.children_of_tag(tag_ids[0]);
    assert_eq!(children, [1, 2, 7, 3, 4, 5, 6, 8, 9].map(|i| tag_ids[i]).to_vec());
    let positions: Vec<i32> =
        children.iter().map(|id| data.get_tag(*id).unwrap().position).collect();
    assert_eq!(positions, vec![0, 1, 2, 3, 4, 5, 6, 7, 8]);
}

#[test]
fn test_reorder_tag_across_parents() {
    const TAGS_NUM: usize = 10;
    let (mut data, db) = setup_tags();

    let mut tag_ids: [i32; TAGS_NUM] = [0; TAGS_NUM];
    for (i, tag_id) in tag_ids.iter_mut().enumerate() {
        *tag_id = data.new_tag(format!("tag{i}"), &db).unwrap();
    }

    // 0 - [2, 3, 4, 5], 1 - [6, 7, 8, 9]
    for i in 2..=5 {
        data.reorder_tag(tag_ids[i], tag_ids[0], -1, &db).unwrap();
    }
    for i in 6..=9 {
        data.reorder_tag(tag_ids[i], tag_ids[1], -1, &db).unwrap();
    }
    assert_eq!(data.children_of_tag(tag_ids[0]), [2, 3, 4, 5].map(|i| tag_ids[i]).to_vec());
    assert_eq!(data.children_of_tag(tag_ids[1]), [6, 7, 8, 9].map(|i| tag_ids[i]).to_vec());

    // Move tag 4 to tag 1 at position 1.
    // 0 - [2, 3, 5], 1 - [6, 4, 7, 8, 9]
    data.reorder_tag(tag_ids[4], tag_ids[1], 1, &db).unwrap();
    assert_eq!(data.children_of_tag(tag_ids[0]), [2, 3, 5].map(|i| tag_ids[i]).to_vec());
    assert_eq!(data.children_of_tag(tag_ids[1]), [6, 4, 7, 8, 9].map(|i| tag_ids[i]).to_vec());

    // Move tag 8 to tag 0 at position 1.
    // 0 - [2, 8, 3, 5], 1 - [6, 4, 7, 9]
    data.reorder_tag(tag_ids[8], tag_ids[0], 1, &db).unwrap();
    assert_eq!(data.children_of_tag(tag_ids[0]), [2, 8, 3, 5].map(|i| tag_ids[i]).to_vec());
    assert_eq!(data.children_of_tag(tag_ids[1]), [6, 4, 7, 9].map(|i| tag_ids[i]).to_vec());

    // Move tag 0 to tag 1 at position 2.
    // 1 - [6, 4, 0 - [2, 8, 3, 5], 7, 9]
    data.reorder_tag(tag_ids[0], tag_ids[1], 2, &db).unwrap();
    assert_eq!(data.children_of_tag(tag_ids[1]), [6, 4, 0, 7, 9].map(|i| tag_ids[i]).to_vec());
    assert_eq!(data.children_of_tag(tag_ids[0]), [2, 8, 3, 5].map(|i| tag_ids[i]).to_vec());
}

#[test]
fn test_read_tags() {
    const TAGS_NUM: usize = 10;
    let (mut data, db) = setup_tags();

    let mut tag_ids: [i32; TAGS_NUM] = [0; TAGS_NUM];
    for (i, tag_id) in tag_ids.iter_mut().enumerate() {
        *tag_id = data.new_tag(format!("tag{i}"), &db).unwrap();
    }

    // 0 - [2, 3, 4, 5], 1 - [6, 7, 8, 9]
    for i in 2..=5 {
        data.reorder_tag(tag_ids[i], tag_ids[0], -1, &db).unwrap();
    }
    for i in 6..=9 {
        data.reorder_tag(tag_ids[i], tag_ids[1], -1, &db).unwrap();
    }
    data.reorder_tag(tag_ids[4], tag_ids[1], 1, &db).unwrap();
    data.reorder_tag(tag_ids[8], tag_ids[0], 1, &db).unwrap();
    data.reorder_tag(tag_ids[0], tag_ids[1], 2, &db).unwrap();
    assert_eq!(data.children_of_tag(tag_ids[1]), [6, 4, 0, 7, 9].map(|i| tag_ids[i]).to_vec());
    assert_eq!(data.children_of_tag(tag_ids[0]), [2, 8, 3, 5].map(|i| tag_ids[i]).to_vec());
    drop(data);

    // Reopen: the same tree must be recovered from the store.
    let data = reopen_tags(&db);
    assert_eq!(data.children_of_tag(tag_ids[1]), [6, 4, 0, 7, 9].map(|i| tag_ids[i]).to_vec());
    assert_eq!(data.children_of_tag(tag_ids[0]), [2, 8, 3, 5].map(|i| tag_ids[i]).to_vec());
    let positions: Vec<i32> = data
        .children_of_tag(tag_ids[1])
        .iter()
        .map(|id| data.get_tag(*id).unwrap().position)
        .collect();
    assert_eq!(positions, vec![0, 1, 2, 3, 4]);
}

#[test]
fn test_get_tags_tree() {
    let (mut data, db) = setup_tags();

    let a = data.new_tag(String::from("a"), &db).unwrap();
    let b = data.new_tag(String::from("b"), &db).unwrap();
    let c = data.new_tag(String::from("c"), &db).unwrap();
    data.reorder_tag(b, a, -1, &db).unwrap();

    let tree = data.get_tags();
    assert_eq!(tree.len(), 2);
    assert_eq!(tree[0].tag.id, a);
    assert_eq!(tree[0].children.len(), 1);
    assert_eq!(tree[0].children[0].tag.id, b);
    assert_eq!(tree[1].tag.id, c);
    assert_eq!(tree[1].children.len(), 0);

    assert_eq!(data.get_tag_order(b), vec![0, 0]);
    assert_eq!(data.get_tag_order(c), vec![1]);
}

#[test]
fn test_load_tags_rejects_broken_rows() {
    // A row pointing at an unknown parent is refused.
    let mut data = DatabaseData::new_empty(String::from("test_database"));
    let rows = vec![(1i64, String::from("a"), 77i64, 0i64, 0i64)];
    assert!(data.load_tags(&rows).is_err());

    // Two siblings sharing a position are refused.
    let mut data = DatabaseData::new_empty(String::from("test_database"));
    let rows = vec![
        (1i64, String::from("a"), -1i64, 0i64, 0i64),
        (2i64, String::from("b"), -1i64, 0i64, 0i64),
    ];
    assert!(data.load_tags(&rows).is_err());

    // A position outside the contiguous range is refused.
    let mut data = DatabaseData::new_empty(String::from("test_database"));
    let rows = vec![
        (1i64, String::from("a"), -1i64, 0i64, 0i64),
        (2i64, String::from("b"), -1i64, 2i64, 0i64),
    ];
    assert!(data.load_tags(&rows).is_err());

    // A colliding name is refused.
    let mut data = DatabaseData::new_empty(String::from("test_database"));
    let rows = vec![
        (1i64, String::from("a"), -1i64, 0i64, 0i64),
        (2i64, String::from("a"), -1i64, 1i64, 0i64),
    ];
    assert!(data.load_tags(&rows).is_err());

    // A well-formed pair loads, with colors kept.
    let mut data = DatabaseData::new_empty(String::from("test_database"));
    let rows = vec![
        (1i64, String::from("a"), -1i64, 0i64, 5i64),
        (2i64, String::from("b"), 1i64, 0i64, 7i64),
    ];
    data.load_tags(&rows).unwrap();
    assert_eq!(data.get_tag(1).unwrap().color, 5);
    assert_eq!(data.get_tag(2).unwrap().parent_id, 1);
    assert_eq!(data.get_tag(2).unwrap().color, 7);
}

#[test]
fn test_rename_tag() {
    const TAGS_NUM: usize = 3;
    let mut tag_ids: [i32; TAGS_NUM] = [0; TAGS_NUM];
    let (mut data, db) = setup_tags();

    for (i, tag_id) in tag_ids.iter_mut().enumerate() {
        *tag_id = data.new_tag(format!("tag{i}"), &db).unwrap();
    }

    data.rename_tag(tag_ids[1], String::from("renamed_tag"), &db).unwrap();

    assert_eq!(data.get_tag(tag_ids[1]).unwrap().name, "renamed_tag");
    assert_eq!(data.get_tag(tag_ids[0]).unwrap().name, "tag0");
    assert_eq!(data.get_tag(tag_ids[2]).unwrap().name, "tag2");

    match data.rename_tag(tag_ids[0], String::from("renamed_tag"), &db) {
        Err(Error::TagAlreadyExists(..)) => (),
        other => panic!("expected TagAlreadyExists, got {:?}", other.is_ok()),
    }
    drop(data);

    // Reopen: the rename must persist.
    let mut data = reopen_tags(&db);
    assert_eq!(data.get_tag(tag_ids[1]).unwrap().name, "renamed_tag");
    assert_eq!(data.get_tag(tag_ids[0]).unwrap().name, "tag0");
    assert_eq!(data.get_tag(tag_ids[2]).unwrap().name, "tag2");
    match data.rename_tag(tag_ids[0], String::from("renamed_tag"), &db) {
        Err(Error::TagAlreadyExists(..)) => (),
        other => panic!("expected TagAlreadyExists, got {:?}", other.is_ok()),
    }
}

#[test]
fn test_delete_tag() {
    const TAGS_NUM: usize = 6;
    let mut tag_ids: [i32; TAGS_NUM] = [0; TAGS_NUM];
    let (mut data, db) = setup_tags();

    for (i, tag_id) in tag_ids.iter_mut().enumerate() {
        *tag_id = data.new_tag(format!("tag{i}"), &db).unwrap();
    }

    // 0 - [1 - [2], 3], 4 - [5]
    data.reorder_tag(tag_ids[0], ROOT_TAG_ID, -1, &db).unwrap();
    data.reorder_tag(tag_ids[1], tag_ids[0], -1, &db).unwrap();
    data.reorder_tag(tag_ids[2], tag_ids[1], -1, &db).unwrap();
    data.reorder_tag(tag_ids[3], tag_ids[0], -1, &db).unwrap();
    data.reorder_tag(tag_ids[4], ROOT_TAG_ID, -1, &db).unwrap();
    data.reorder_tag(tag_ids[5], tag_ids[4], -1, &db).unwrap();

    // Delete tag 1 with its subtree: 0 - [3], 4 - [5]
    data.delete_tag(tag_ids[1], &db).unwrap();

    let mut roots = data.children_of_tag(ROOT_TAG_ID);
    roots.sort();
    let mut expected_roots = vec![tag_ids[0], tag_ids[4]];
    expected_roots.sort();
    assert_eq!(roots, expected_roots);
    assert_eq!(data.children_of_tag(tag_ids[0]), vec![tag_ids[3]]);
    assert_eq!(data.children_of_tag(tag_ids[3]).len(), 0);
    assert_eq!(data.children_of_tag(tag_ids[4]), vec![tag_ids[5]]);
    assert_eq!(data.children_of_tag(tag_ids[5]).len(), 0);
    assert!(data.get_tag(tag_ids[1]).is_none());
    assert!(data.get_tag(tag_ids[2]).is_none());
    drop(data);

    // Reopen: the deletion must persist.
    let data = reopen_tags(&db);
    let mut roots = data.children_of_tag(ROOT_TAG_ID);
    roots.sort();
    assert_eq!(roots, expected_roots);
    assert_eq!(data.children_of_tag(tag_ids[0]), vec![tag_ids[3]]);
    assert_eq!(data.children_of_tag(tag_ids[3]).len(), 0);
    assert_eq!(data.children_of_tag(tag_ids[4]), vec![tag_ids[5]]);
    assert_eq!(data.children_of_tag(tag_ids[5]).len(), 0);
}
