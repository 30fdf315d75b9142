use crypt_core::cloud_storage::oauth::{access_token_of, content_length_of, HeaderLength, UserCredentials};
use crypt_core::drive::{
    build_headers, children_query, chunk_step, download_url, file_url, files_url, first_matching_id, folder_query,
    is_folder, last_matching_id, trashed_url, update_url, ChunkStep, Listed, CHUNK_SIZE, GOOGLE_FOLDER,
};

#[test]
fn access_token_is_read_from_the_form() {
    assert_eq!(access_token_of("state=x&access_token=ya29.abc&token_type=Bearer"), "ya29.abc");
    assert_eq!(access_token_of("access_token_extra=1=2&access_token=z"), "1");
    assert_eq!(access_token_of("token_type=Bearer"), "");
    assert_eq!(access_token_of("access_token"), "");
    let creds = UserCredentials { access_token: access_token_of("access_token=t") };
    assert_eq!(creds.access_token, "t");
}

#[test]
fn content_length_is_read_from_its_header() {
    assert!(matches!(content_length_of("Content-Length: 42\r\n"), HeaderLength::Length(42)));
    assert!(matches!(content_length_of("Host: localhost\r\n"), HeaderLength::Other));
    assert!(matches!(content_length_of("Content-Length:\r\n"), HeaderLength::Malformed));
    assert!(matches!(content_length_of("Content-Length: x\r\n"), HeaderLength::Malformed));
}

#[test]
fn queries_and_addresses() {
    assert_eq!(
        folder_query("Crypt", ""),
        "name = 'Crypt' and mimeType = 'application/vnd.google-apps.folder' and trashed = false"
    );
    assert_eq!(
        folder_query("docs", "p1"),
        "name = 'docs' and mimeType = 'application/vnd.google-apps.folder' and trashed = false and 'p1' in parents"
    );
    assert_eq!(children_query("f1"), "'f1' in parents and trashed = false");
    assert_eq!(files_url("q"), "https://www.googleapis.com/drive/v3/files?q=q");
    assert_eq!(trashed_url("i"), "https://www.googleapis.com/drive/v3/files/i?fields=trashed");
    assert_eq!(update_url("i"), "https://www.googleapis.com/upload/drive/v3/files/i?uploadType=resumable");
    assert_eq!(download_url("i"), "https://www.googleapis.com/drive/v3/files/i?alt=media&source=downloadUrl");
    assert_eq!(file_url("i"), "https://www.googleapis.com/drive/v3/files/i");
    assert!(is_folder("application/vnd.google-apps.folder"));
    assert!(!is_folder("application/x-crypt"));
    assert_eq!(GOOGLE_FOLDER, "Crypt");
    assert_eq!(CHUNK_SIZE, 5_242_880);
}

#[test]
fn chunk_headers() {
    assert_eq!(build_headers(0, 5242879, 10000000), Some(("bytes 0-5242879/10000000".to_string(), 5242880)));
    assert_eq!(build_headers(10, 9, 20), Some(("bytes 10-9/20".to_string(), 0)));
    assert_eq!(build_headers(11, 9, 20), None);
    assert_eq!(build_headers(0, u64::MAX, u64::MAX), None);
}

#[test]
fn chunk_responses() {
    assert!(matches!(chunk_step(308, None), ChunkStep::Continue));
    assert!(matches!(chunk_step(200, Some("id".to_string())), ChunkStep::Uploaded(i) if i == "id"));
    assert!(matches!(chunk_step(201, None), ChunkStep::MissingId));
    assert!(matches!(chunk_step(401, Some("id".to_string())), ChunkStep::Failed(401)));
}

fn listed(name: Option<&str>, id: Option<&str>) -> Listed {
    Listed { name: name.map(|s| s.to_string()), id: id.map(|s| s.to_string()) }
}

#[test]
fn matching_folders() {
    let items = vec![
        listed(Some("Crypt"), None),
        listed(Some("Crypt"), Some("a")),
        listed(Some("Other"), Some("b")),
        listed(Some("Crypt"), Some("c")),
        listed(None, Some("d")),
    ];
    assert_eq!(first_matching_id(&items, "Crypt"), Some("a".to_string()));
    assert_eq!(last_matching_id(&items, "Crypt"), "c");
    assert_eq!(first_matching_id(&items, "None"), None);
    assert_eq!(last_matching_id(&items, "None"), "");
}
