use havi::hppr_chunks::{chunk_blob_key, chunk_keeps_whole_packet, chunks_to_fetch_from_route};

#[test]
fn chunk_packets_are_filed_under_their_hash() {
    assert_eq!(chunk_blob_key("\u{1F5A7}: B.abc123\n"), "B.abc123");
    assert_eq!(chunk_blob_key("\u{1F5A7}: P.def\n"), "P.def");
    assert_eq!(chunk_blob_key("\u{1F5A7}: B.abc123"), "\u{1F5A7}: B.abc123");
    assert_eq!(chunk_blob_key("B.abc123\n"), "B.abc123\n");
    assert_eq!(chunk_blob_key("\u{1F5A7}: "), "\u{1F5A7}: ");
    assert_eq!(chunk_blob_key("\u{1F5A7}: \n"), "");
}

#[test]
fn manifests_keep_their_whole_packet() {
    assert!(chunk_keeps_whole_packet("P.def"));
    assert!(!chunk_keeps_whole_packet("B.abc"));
    assert!(!chunk_keeps_whole_packet("P"));
    assert!(!chunk_keeps_whole_packet(""));
}

#[test]
fn route_is_asked_for_what_the_repo_did_not_send() {
    let hashes = vec!["B.1".to_string(), "B.2".to_string(), "P.3".to_string()];
    let fetched = vec!["B.2".to_string()];
    assert_eq!(chunks_to_fetch_from_route(&hashes, &fetched, false), vec!["B.1".to_string(), "P.3".to_string()]);
    assert!(chunks_to_fetch_from_route(&hashes, &fetched, true).is_empty());
    assert!(chunks_to_fetch_from_route(&hashes, &hashes, false).is_empty());
}
