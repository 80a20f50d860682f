use cargo_rustics::snapshot::{file_hashes, fingerprint};

#[test]
fn file_hashes_orders_paths_and_keeps_the_last_file_of_a_path() {
    let files = vec![
        ("src/b.rs".to_string(), b"fn b() {}\n".to_vec()),
        ("a.rs".to_string(), b"fn a() {}\n".to_vec()),
        ("src/b.rs".to_string(), b"fn b2() {}\n".to_vec()),
    ];
    let out = file_hashes(&files);
    assert_eq!(out.len(), 2);
    assert_eq!(out[0], ("a.rs".to_string(), fingerprint(b"fn a() {}\n")));
    assert_eq!(out[1], ("src/b.rs".to_string(), fingerprint(b"fn b2() {}\n")));
    assert_eq!(out[0].1.len(), 64);
    assert!(file_hashes(&[]).is_empty());
}
