use cargo_vendor::source::{classify_mime, classify_source, Compression, Src, SupportedFormat};

#[test]
fn mime_names_map_to_compressions() {
    assert!(matches!(classify_mime("application/gzip"), Some(Compression::Gz)));
    assert!(matches!(classify_mime("application/x-xz"), Some(Compression::Xz)));
    assert!(matches!(classify_mime("application/zstd"), Some(Compression::Zst)));
    assert!(matches!(classify_mime("application/x-bzip2"), Some(Compression::Bz2)));
    assert!(classify_mime("application/zip").is_none());
    assert!(classify_mime("").is_none());
}

#[test]
fn compression_extensions() {
    assert_eq!(Compression::Gz.as_str(), "gz");
    assert_eq!(Compression::Xz.as_str(), "xz");
    assert_eq!(Compression::Zst.as_str(), "zst");
    assert_eq!(Compression::Bz2.as_str(), "bz2");
}

#[test]
fn default_compression_is_zstd() {
    assert!(matches!(Compression::default(), Compression::Zst));
}

#[test]
fn gzip_magic_bytes_classify_as_gz_tarball() {
    let buf: Vec<u8> = vec![0x1f, 0x8b, 0x08, 0, 0, 0, 0, 0, 0, 0];
    let r = classify_source(true, &buf, "/src/pkg.tar.gz").unwrap();
    match r {
        SupportedFormat::Compressed(c, p) => {
            assert!(matches!(c, Compression::Gz));
            assert_eq!(p, "/src/pkg.tar.gz");
        },
        _ => panic!("expected a compressed source"),
    }
}

#[test]
fn xz_magic_bytes_classify_as_xz_tarball() {
    let buf: Vec<u8> = vec![0xfd, 0x37, 0x7a, 0x58, 0x5a, 0x00, 0, 0, 0, 0];
    let r = classify_source(true, &buf, "p.tar.xz").unwrap();
    assert!(matches!(r, SupportedFormat::Compressed(Compression::Xz, _)));
}

#[test]
fn zstd_magic_bytes_classify_as_zst_tarball() {
    let buf: Vec<u8> = vec![0x28, 0xb5, 0x2f, 0xfd, 0, 0, 0, 0, 0, 0];
    let r = classify_source(true, &buf, "p.tar.zst").unwrap();
    assert!(matches!(r, SupportedFormat::Compressed(Compression::Zst, _)));
}

#[test]
fn bzip2_magic_bytes_classify_as_bz2_tarball() {
    let buf: Vec<u8> = vec![0x42, 0x5a, 0x68, 0x39, 0x31, 0x41, 0x59, 0x26, 0x53, 0x59];
    let r = classify_source(true, &buf, "p.tar.bz2").unwrap();
    assert!(matches!(r, SupportedFormat::Compressed(Compression::Bz2, _)));
}

#[test]
fn directories_are_supported_as_they_are() {
    let r = classify_source(false, &[], "/src/project").unwrap();
    match r {
        SupportedFormat::Dir(p) => assert_eq!(p, "/src/project"),
        _ => panic!("expected a directory source"),
    }
}

#[test]
fn unrecognisable_bytes_are_reported() {
    let buf: Vec<u8> = b"just some plain text".to_vec();
    let err = classify_source(true, &buf, "notes.txt").unwrap_err();
    assert_eq!(err.ext, "`File type is not known`");
}

#[test]
fn zip_archives_are_unsupported_with_their_mime() {
    let buf: Vec<u8> = vec![0x50, 0x4b, 0x03, 0x04, 0, 0, 0, 0, 0, 0];
    let err = classify_source(true, &buf, "p.zip").unwrap_err();
    assert_eq!(err.ext, "application/zip");
}

#[test]
fn src_new_keeps_the_path() {
    let s = Src::new("/tmp/project");
    assert_eq!(s.src, "/tmp/project");
}
