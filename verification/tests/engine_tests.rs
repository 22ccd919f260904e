use find_my_sht::index::engine::{
    add_documents, index_searcher, schema, Document, Field, SearchIndex,
};

#[test]
fn schema_has_the_four_fixed_fields() {
    let s = schema();
    assert!(matches!(s.id_field, Field::Id));
    assert!(matches!(s.name_field, Field::Name));
    assert!(matches!(s.descr_field, Field::Description));
    assert!(matches!(s.item_field, Field::Item));
}

fn doc(id: usize, name: &str) -> Document {
    Document {
        id,
        name: name.chars().collect(),
        descr: Vec::new(),
        payload: Vec::new(),
    }
}

#[test]
fn rebuild_replaces_every_document() {
    let mut index = SearchIndex::new();
    assert!(index_searcher(&index).is_empty());
    add_documents(&mut index, vec![doc(1, "one"), doc(2, "two")]);
    index.reload();
    assert_eq!(index_searcher(&index).len(), 2);
    add_documents(&mut index, vec![doc(3, "three")]);
    index.reload();
    let snapshot = index_searcher(&index);
    assert_eq!(snapshot.len(), 1);
    assert_eq!(snapshot[0].id, 3);
}

#[test]
fn reader_snapshot_lags_until_reload() {
    let mut index = SearchIndex::new();
    add_documents(&mut index, vec![doc(1, "one")]);
    assert!(index_searcher(&index).is_empty());
    index.reload();
    assert_eq!(index_searcher(&index).len(), 1);
}

#[test]
fn documents_duplicate_field_for_field() {
    let d = Document { id: 9, name: vec!['a', 'b'], descr: vec!['c'], payload: vec![1, 2, 3] };
    let copy = d.duplicate();
    assert_eq!(copy.id, 9);
    assert_eq!(copy.name, vec!['a', 'b']);
    assert_eq!(copy.descr, vec!['c']);
    assert_eq!(copy.payload, vec![1, 2, 3]);
}
