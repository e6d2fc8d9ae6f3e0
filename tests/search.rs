use golem_images::query::{chunk_query, tag_list_matches, tag_query, thumbnails_query};

#[test]
fn tag_matching_respects_commas() {
    assert!(tag_list_matches("cat,dog", "cat"));
    assert!(tag_list_matches("dog,cat", "cat"));
    assert!(!tag_list_matches("scatter", "cat"));
    assert!(tag_list_matches("cat", "cat"));
    assert!(tag_list_matches("dog,cat,bird", "cat"));
    assert!(!tag_list_matches("dog,cats", "cat"));
    assert!(!tag_list_matches("", "cat"));
}

#[test]
fn tag_query_text() {
    assert_eq!(
        tag_query("cat"),
        "type=\"thumbnail\" && app=\"golem-images-0.1\" && (tag~\"cat\" || (tag~\"cat,*\" || (tag~\"*,cat\" || tag~\"*,cat,*\")))"
    );
}

#[test]
fn thumbnails_query_text() {
    assert_eq!(thumbnails_query(), "type=\"thumbnail\" && app=\"golem-images-0.1\"");
}

#[test]
fn chunk_query_text() {
    assert_eq!(
        chunk_query("0xab", 12),
        "parent=\"0xab\" && type=\"image_chunk\" && app=\"golem-images-0.1\" && part=12"
    );
    assert!(chunk_query("k", 0).ends_with("part=0"));
    assert!(chunk_query("k", 18446744073709551615).ends_with("part=18446744073709551615"));
}
