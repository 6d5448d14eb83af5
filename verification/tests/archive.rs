use indistocks::archive::{extract_single_member, CorruptArchiveError};
use std::io::Write;

fn archive_of(entries: &[(&str, &[u8])], method: zip::CompressionMethod) -> Vec<u8> {
    let mut writer = zip::ZipWriter::new(std::io::Cursor::new(Vec::new()));
    for (name, content) in entries {
        let options = zip::write::SimpleFileOptions::default().compression_method(method);
        writer.start_file(*name, options).unwrap();
        writer.write_all(content).unwrap();
    }
    writer.finish().unwrap().into_inner()
}

#[test]
fn the_sole_member_comes_back_whole() {
    let content = b"TradDt,TckrSymb\n2024-01-31,ABC\n";
    let bytes = archive_of(&[("day.csv", content)], zip::CompressionMethod::Deflated);
    assert_ne!(bytes, content.to_vec());
    assert_eq!(extract_single_member(&bytes), Ok(content.to_vec()));
    let stored = archive_of(&[("day.csv", content)], zip::CompressionMethod::Stored);
    assert_eq!(extract_single_member(&stored), Ok(content.to_vec()));
}

#[test]
fn the_first_of_several_members_is_taken() {
    let bytes = archive_of(&[("a.csv", b"first"), ("b.csv", b"second")], zip::CompressionMethod::Deflated);
    assert_eq!(extract_single_member(&bytes), Ok(b"first".to_vec()));
}

#[test]
fn what_is_no_archive_is_corrupt() {
    assert_eq!(extract_single_member(b""), Err(CorruptArchiveError {}));
    assert_eq!(extract_single_member(b"<html>not found</html>"), Err(CorruptArchiveError {}));
}

#[test]
fn an_empty_archive_is_corrupt() {
    let bytes = archive_of(&[], zip::CompressionMethod::Stored);
    assert_eq!(extract_single_member(&bytes), Err(CorruptArchiveError {}));
}

#[test]
fn a_damaged_member_is_corrupt() {
    let content = [b'x'; 64];
    let mut bytes = archive_of(&[("day.csv", &content)], zip::CompressionMethod::Stored);
    let at = bytes.windows(4).position(|w| w == b"xxxx").unwrap();
    bytes[at] = b'y';
    assert_eq!(extract_single_member(&bytes), Err(CorruptArchiveError {}));
}
