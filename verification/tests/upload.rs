use tezweb::upload::{extract_boundary, parse_multipart};

#[test]
fn boundary_is_extracted() {
    assert_eq!(
        extract_boundary("multipart/form-data; boundary=abc123"),
        Some("abc123".to_string())
    );
    assert_eq!(extract_boundary("multipart/form-data; charset=x"), None);
    assert_eq!(
        extract_boundary("multipart/form-data;  boundary=boundary=x "),
        Some("x".to_string())
    );
}

#[test]
fn multipart_fields_and_files() {
    let body = b"--XYZ\r\nContent-Disposition: form-data; name=\"title\"\r\n\r\nHello\r\n--XYZ\r\nContent-Disposition: form-data; name=\"file\"; filename=\"a.txt\"\r\nContent-Type: text/plain\r\n\r\nline1\nline2\r\n\r\n--XYZ--\r\n";
    let parts = parse_multipart(body, "XYZ");
    assert_eq!(parts.len(), 2);
    assert_eq!(parts[0].name, "title");
    assert_eq!(parts[0].filename, None);
    assert_eq!(parts[0].content_type, None);
    assert_eq!(parts[0].data, b"Hello".to_vec());
    assert_eq!(parts[1].name, "file");
    assert_eq!(parts[1].filename, Some("a.txt".to_string()));
    assert_eq!(parts[1].content_type, Some("text/plain".to_string()));
    assert_eq!(parts[1].data, b"line1\nline2".to_vec());
}

#[test]
fn parts_without_name_or_blank_line_are_skipped() {
    let body = b"--B\r\nX: y\r\n\r\nzz\r\n--B\r\nno blank line\r\n--B\r\nContent-Disposition: form-data; name=\"k\"\r\ncontent-TYPE:  image/png \r\n\r\nv\r\n--B--";
    let parts = parse_multipart(body, "B");
    assert_eq!(parts.len(), 1);
    assert_eq!(parts[0].name, "k");
    assert_eq!(parts[0].content_type, Some("image/png".to_string()));
    assert_eq!(parts[0].data, b"v".to_vec());
    assert!(parse_multipart(b"", "B").is_empty());
}
