use golem_images::assembler::{assemble, RootInfo};
use golem_images::chunker::{keep_custom, remainder_entities, root_entity, split_blob, MAX_CHUNK_SIZE};
use golem_images::entity::{EntityDraft, StringAnnotation, APP_NAMESPACE, ENTITY_BTL};

fn blob_of(n: usize) -> Vec<u8> {
    (0..n).map(|i| (i % 251) as u8).collect()
}

fn string_value<'a>(e: &'a EntityDraft, key: &str) -> Option<&'a str> {
    e.string_annotations.iter().find(|a| a.key == key).map(|a| a.value.as_str())
}

fn number_value(e: &EntityDraft, key: &str) -> Option<u64> {
    e.numeric_annotations.iter().find(|a| a.key == key).map(|a| a.value)
}

#[test]
fn split_of_250000_bytes_gives_three_chunks() {
    let blob = blob_of(250_000);
    let chunks = split_blob(&blob, MAX_CHUNK_SIZE);
    let sizes: Vec<usize> = chunks.iter().map(|c| c.len()).collect();
    assert_eq!(sizes, vec![100_000, 100_000, 50_000]);
    assert_eq!(chunks.concat(), blob);

    let root = root_entity(&chunks, "big.png", "image/png", "", &Vec::new());
    let rest = remainder_entities(&chunks, "0xroot", "big.png", "image/png");
    assert_eq!(number_value(&root, "part-of"), Some(3));
    assert_eq!(rest.len(), 2);
    for e in &rest {
        assert_eq!(number_value(e, "part-of"), Some(3));
    }

    let info = RootInfo::read(&root.string_annotations, &root.numeric_annotations);
    assert_eq!(info.chunk_count(), 3);
    let fetched: Vec<Option<Vec<u8>>> = rest.iter().map(|e| Some(e.data.clone())).collect();
    match assemble(&root.data, &fetched) {
        Ok(bytes) => assert_eq!(bytes, blob),
        Err(_) => panic!("reassembly of a complete upload failed"),
    }
}

#[test]
fn empty_blob_is_one_empty_root_chunk() {
    let chunks = split_blob(&Vec::new(), 4);
    assert_eq!(chunks, vec![Vec::<u8>::new()]);
    let root = root_entity(&chunks, "e.png", "image/png", "", &Vec::new());
    assert!(root.data.is_empty());
    assert_eq!(number_value(&root, "part"), Some(1));
    assert_eq!(number_value(&root, "part-of"), Some(1));
    assert!(remainder_entities(&chunks, "0xroot", "e.png", "image/png").is_empty());
}

#[test]
fn split_with_exact_multiple_and_size_one() {
    let blob = blob_of(10);
    let sizes: Vec<usize> = split_blob(&blob, 5).iter().map(|c| c.len()).collect();
    assert_eq!(sizes, vec![5, 5]);
    let ones = split_blob(&blob, 1);
    assert_eq!(ones.len(), 10);
    assert_eq!(ones.concat(), blob);
    let whole = split_blob(&blob, 100);
    assert_eq!(whole, vec![blob.clone()]);
}

#[test]
fn part_numbers_cover_one_to_n_once() {
    let blob = blob_of(23);
    let chunks = split_blob(&blob, 5);
    let root = root_entity(&chunks, "f", "m", "t", &Vec::new());
    let rest = remainder_entities(&chunks, "0xroot", "f", "m");
    let mut parts = vec![number_value(&root, "part").unwrap()];
    parts.extend(rest.iter().map(|e| number_value(e, "part").unwrap()));
    assert_eq!(parts, vec![1, 2, 3, 4, 5]);
}

#[test]
fn root_entity_carries_tags_and_custom_annotations() {
    let chunks = split_blob(&blob_of(7), 100);
    let custom = vec![
        StringAnnotation::new("k", "v"),
        StringAnnotation::new("empty", ""),
        StringAnnotation::new("", "orphan"),
    ];
    let root = root_entity(&chunks, "photo.png", "image/png", "landscape, nature", &custom);
    assert_eq!(string_value(&root, "tag"), Some("landscape, nature"));
    assert_eq!(string_value(&root, "k"), Some("v"));
    assert_eq!(string_value(&root, "type"), Some("image"));
    assert_eq!(string_value(&root, "app"), Some(APP_NAMESPACE));
    assert_eq!(string_value(&root, "filename"), Some("photo.png"));
    assert_eq!(string_value(&root, "mime-type"), Some("image/png"));
    assert_eq!(string_value(&root, "parent"), None);
    assert_eq!(string_value(&root, "empty"), None);
    assert_eq!(root.string_annotations.len(), 6);
    assert_eq!(root.btl, ENTITY_BTL);
}

#[test]
fn keep_custom_drops_incomplete_pairs_in_order() {
    let custom = vec![
        StringAnnotation::new("a", "1"),
        StringAnnotation::new("b", ""),
        StringAnnotation::new("c", "3"),
    ];
    let kept = keep_custom(&custom);
    let keys: Vec<&str> = kept.iter().map(|a| a.key.as_str()).collect();
    assert_eq!(keys, vec!["a", "c"]);
}

#[test]
fn remainder_entities_link_to_root_without_custom_annotations() {
    let chunks = split_blob(&blob_of(12), 5);
    let rest = remainder_entities(&chunks, "0xabc", "x.png", "image/png");
    assert_eq!(rest.len(), 2);
    assert_eq!(string_value(&rest[0], "parent"), Some("0xabc"));
    assert_eq!(string_value(&rest[0], "type"), Some("image_chunk"));
    assert_eq!(string_value(&rest[1], "mime-type"), Some("image/png"));
    assert_eq!(string_value(&rest[1], "tag"), None);
    assert_eq!(number_value(&rest[1], "part"), Some(3));
    assert_eq!(rest[1].data, chunks[2]);
    assert_eq!(rest[0].string_annotations.len(), 5);
}
