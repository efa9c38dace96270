use bevy_embedded_assets::asset_reader::{DirReader, EmbeddedDataReaderError, SeekFrom};
use bevy_embedded_assets::{DataReader, EmbeddedAssetReader};

#[test]
fn read_copies_what_fits_and_moves_on() {
    let mut reader = DataReader(&[1, 2, 3, 4, 5]);
    let mut buf = [0u8; 2];
    assert_eq!(reader.read(&mut buf), 2);
    assert_eq!(buf, [1, 2]);
    assert_eq!(reader.0, [3, 4, 5]);
    assert_eq!(reader.read(&mut buf), 2);
    assert_eq!(buf, [3, 4]);
    assert_eq!(reader.read(&mut buf), 1);
    assert_eq!(buf, [5, 4]);
    assert_eq!(reader.0, []);
    assert_eq!(reader.read(&mut buf), 0);
    assert_eq!(buf, [5, 4]);
}

#[test]
fn read_into_a_larger_buffer_leaves_its_end() {
    let mut reader = DataReader(&[7, 8]);
    let mut buf = [1u8, 2, 3, 4];
    assert_eq!(reader.read(&mut buf), 2);
    assert_eq!(buf, [7, 8, 3, 4]);
    assert_eq!(reader.0, []);
}

#[test]
fn read_into_an_empty_buffer_reads_nothing() {
    let mut reader = DataReader(&[7, 8]);
    let mut buf = [0u8; 0];
    assert_eq!(reader.read(&mut buf), 0);
    assert_eq!(reader.0, [7, 8]);
}

#[test]
fn read_to_end_appends_the_rest() {
    let mut reader = DataReader(b"hello");
    let mut buf = [0u8; 2];
    assert_eq!(reader.read(&mut buf), 2);
    let mut rest = vec![b'>'];
    assert_eq!(reader.read_to_end(&mut rest), 3);
    assert_eq!(rest, b">llo");
    assert_eq!(reader.0, []);
    assert_eq!(reader.read_to_end(&mut rest), 0);
    assert_eq!(rest, b">llo");
}

#[test]
fn default_reader_is_empty() {
    let mut reader = DataReader::default();
    let mut buf = Vec::new();
    assert_eq!(reader.read_to_end(&mut buf), 0);
    assert!(buf.is_empty());
}

#[test]
fn seek_is_refused_wherever_to() {
    let mut reader = DataReader(&[1, 2, 3]);
    for pos in [
        SeekFrom::Start(0),
        SeekFrom::Start(2),
        SeekFrom::Start(u64::MAX),
        SeekFrom::End(0),
        SeekFrom::End(-1),
        SeekFrom::Current(0),
        SeekFrom::Current(1),
        SeekFrom::Current(i64::MIN),
    ] {
        assert_eq!(
            reader.seek(pos),
            Err(EmbeddedDataReaderError::SeekNotSupported)
        );
        assert_eq!(reader.0, [1, 2, 3]);
    }
    for offset in [0, 1, 3, 4, u64::MAX] {
        assert_eq!(
            reader.seek_forward(offset),
            Err(EmbeddedDataReaderError::SeekNotSupported)
        );
        assert_eq!(reader.0, [1, 2, 3]);
    }
}

#[test]
fn seek_error_in_words() {
    assert_eq!(
        EmbeddedDataReaderError::SeekNotSupported.message(),
        "Seek is not supported when embeded"
    );
}

#[test]
fn stream_of_an_embedded_asset_starts_at_its_front() {
    let mut embedded = EmbeddedAssetReader::new();
    embedded.add_asset("asset.bin", &[10, 20, 30]);
    let mut reader = embedded.load_path_sync("asset.bin").unwrap();
    let mut copy = reader;
    let mut buf = [0u8; 8];
    assert_eq!(reader.read(&mut buf), 3);
    assert_eq!(buf[..3], [10, 20, 30]);
    let mut all = Vec::new();
    assert_eq!(copy.read_to_end(&mut all), 3);
    assert_eq!(all, [10, 20, 30]);
}

#[test]
fn listing_hands_each_path_out_once() {
    let mut listing = DirReader(vec!["dir/a".to_string(), "dir/b".to_string()]);
    assert_eq!(listing.next(), Some("dir/b".to_string()));
    assert_eq!(listing.next(), Some("dir/a".to_string()));
    assert_eq!(listing.next(), None);
    assert_eq!(listing.next(), None);
}

#[test]
fn listing_of_a_folder_drains() {
    let embedded =
        EmbeddedAssetReader::preloaded(&[("a.png", &[]), ("dir/b.png", &[]), ("dir/c.png", &[])]);
    let mut listing = embedded.read_directory("dir").unwrap();
    let mut seen = Vec::new();
    while let Some(path) = listing.next() {
        seen.push(path);
    }
    seen.sort();
    assert_eq!(seen, vec!["dir/b.png", "dir/c.png"]);
    assert_eq!(listing.next(), None);
}
