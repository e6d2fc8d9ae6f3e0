use golem_images::assembler::{assemble, assemble_image, RootInfo};
use golem_images::chunker::split_blob;
use golem_images::entity::{NumericAnnotation, StringAnnotation};
use golem_images::error::BlobError;
use golem_images::key::parse_key;

#[test]
fn lost_chunk_is_reported_with_the_other_bytes() {
    let blob: Vec<u8> = (0..12u8).collect();
    let chunks = split_blob(&blob, 4);
    let fetched = vec![None, Some(chunks[2].clone())];
    match assemble(&chunks[0], &fetched) {
        Err(BlobError::IncompleteBlob { recovered, missing }) => {
            assert_eq!(recovered, vec![0, 1, 2, 3, 8, 9, 10, 11]);
            assert_eq!(missing, vec![2]);
        }
        _ => panic!("a lost chunk must be reported"),
    }
}

#[test]
fn several_lost_chunks_are_all_listed() {
    let fetched = vec![None, Some(vec![5]), None];
    match assemble(&vec![1, 2], &fetched) {
        Err(BlobError::IncompleteBlob { recovered, missing }) => {
            assert_eq!(recovered, vec![1, 2, 5]);
            assert_eq!(missing, vec![2, 4]);
        }
        _ => panic!("lost chunks must be reported"),
    }
}

#[test]
fn unchunked_blob_is_the_root_payload() {
    match assemble(&vec![9, 8, 7], &Vec::new()) {
        Ok(bytes) => assert_eq!(bytes, vec![9, 8, 7]),
        Err(_) => panic!("nothing is missing"),
    }
}

#[test]
fn root_info_defaults() {
    let info = RootInfo::read(&Vec::new(), &Vec::new());
    assert_eq!(info.part_of, 1);
    assert_eq!(info.chunk_count(), 1);
    assert_eq!(info.filename, "image");
    assert_eq!(info.mime_type, "application/octet-stream");
}

#[test]
fn root_info_last_annotation_wins() {
    let strings = vec![
        StringAnnotation::new("filename", "a.png"),
        StringAnnotation::new("mime-type", "image/png"),
        StringAnnotation::new("filename", "b.png"),
    ];
    let numbers = vec![
        NumericAnnotation::new("part", 1),
        NumericAnnotation::new("part-of", 2),
        NumericAnnotation::new("part-of", 4),
    ];
    let info = RootInfo::read(&strings, &numbers);
    assert_eq!(info.part_of, 4);
    assert_eq!(info.chunk_count(), 4);
    assert_eq!(info.filename, "b.png");
    assert_eq!(info.mime_type, "image/png");
}

#[test]
fn zero_part_of_means_unchunked() {
    let info = RootInfo::read(&Vec::new(), &vec![NumericAnnotation::new("part-of", 0)]);
    assert_eq!(info.chunk_count(), 1);
}

#[test]
fn assemble_image_keeps_metadata() {
    let key = match parse_key("0x0000000000000000000000000000000000000000000000000000000000000001") {
        Ok(k) => k,
        Err(_) => panic!("valid key"),
    };
    let info = RootInfo::read(
        &vec![StringAnnotation::new("filename", "p.jpg"), StringAnnotation::new("mime-type", "image/jpeg")],
        &vec![NumericAnnotation::new("part-of", 2)],
    );
    match assemble_image(key, info, &vec![1], &vec![Some(vec![2, 3])]) {
        Ok(img) => {
            assert_eq!(img.image_data, vec![1, 2, 3]);
            assert_eq!(img.filename, "p.jpg");
            assert_eq!(img.mimetype, "image/jpeg");
            assert_eq!(img.id.bytes[31], 1);
        }
        Err(_) => panic!("nothing is missing"),
    }
}
