use sorta::inline::{clip_mime, data_url, poster_mime};

#[test]
fn data_urls_are_base64() {
    assert_eq!(data_url("image/png", b"Man"), "data:image/png;base64,TWFu");
    assert_eq!(data_url(clip_mime(), b"Ma"), "data:video/x-matroska;base64,TWE=");
    assert_eq!(data_url("a/b", &[255, 254, 253, 0]), "data:a/b;base64,//79AA==");
    assert_eq!(data_url("a/b", b"Many hands"), "data:a/b;base64,TWFueSBoYW5kcw==");
    assert_eq!(data_url("a/b", b""), "data:a/b;base64,");
}

#[test]
fn poster_types_by_extension() {
    assert_eq!(poster_mime("/hd/poster/1.PNG"), "image/png");
    assert_eq!(poster_mime("/hd/poster/1.webp"), "image/webp");
    assert_eq!(poster_mime("/hd/poster/1.jpg"), "image/jpeg");
    assert_eq!(poster_mime("/hd/poster/1"), "image/jpeg");
}
