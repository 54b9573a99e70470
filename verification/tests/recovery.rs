use recovermov::config::Config;
use recovermov::image::{read, recover};
use recovermov::utils::MIB;

fn settings(block_size: u64, max_chunk_size: u64) -> Config {
    Config { block_size, max_chunk_size, ..Config::default() }
}

fn boxed(atom_type: &[u8; 4], size: u32, payload: &[u8]) -> Vec<u8> {
    let mut bytes = size.to_be_bytes().to_vec();
    bytes.extend_from_slice(atom_type);
    bytes.extend_from_slice(payload);
    bytes
}

fn movie(sizes: &[u32]) -> Vec<u8> {
    let mut bytes = Vec::new();
    for (i, size) in sizes.iter().enumerate() {
        let payload: Vec<u8> = (0..*size - 8).map(|j| (i as u8).wrapping_mul(31).wrapping_add(j as u8)).collect();
        if i == 0 {
            let mut first = b"qt  ".to_vec();
            first.extend_from_slice(&payload[4..]);
            bytes.extend_from_slice(&boxed(b"ftyp", *size, &first));
        } else {
            let atom_type = [b"moov", b"mdat", b"free", b"wide", b"udta"][i % 5];
            bytes.extend_from_slice(&boxed(atom_type, *size, &payload));
        }
    }
    bytes
}

#[test]
fn the_example_yields_one_file_of_24_bytes() {
    let mut source = vec![0u8; 512];
    source.extend_from_slice(&boxed(b"ftyp", 16, b"qt  \x01\x02\x03\x04"));
    source.extend_from_slice(&boxed(b"free", 8, b""));
    let report = recover(&source, &settings(512, MIB));
    assert_eq!(1, report.recovered);
    assert_eq!(1, report.files.len());
    assert_eq!(24, report.files[0].data.len());
    assert_eq!(&source[512..536], &report.files[0].data[..]);
    assert_eq!(512, report.files[0].offset);
    assert_eq!("video_1.mov", report.files[0].name);
}

#[test]
fn a_file_of_many_boxes_is_recovered_byte_for_byte() {
    let sizes = [20, 8, 1000, 513, 12, 4096];
    let file = movie(&sizes);
    let total: u32 = sizes.iter().sum();
    assert_eq!(total as usize, file.len());
    let mut source = vec![0x55u8; 5 * 512];
    source.extend_from_slice(&file);
    source.extend_from_slice(&vec![0xaau8; 3000]);
    let report = recover(&source, &settings(512, MIB));
    assert_eq!(1, report.recovered);
    assert_eq!(1, report.files.len());
    assert_eq!(5 * 512, report.files[0].offset);
    assert_eq!(file, report.files[0].data);
}

#[test]
fn a_stream_without_a_file_start_yields_nothing() {
    for source in [
        Vec::new(),
        vec![0u8; 7],
        vec![0u8; 4096],
        boxed(b"moov", 16, &[0; 8]),
        boxed(b"ftyp", 16, b"isom\0\0\0\0"),
        [vec![0u8; 100], movie(&[16, 8])].concat(),
    ] {
        let report = recover(&source, &settings(512, MIB));
        assert_eq!(0, report.recovered);
        assert!(report.files.is_empty());
    }
}

#[test]
fn a_stream_that_ends_at_a_box_boundary_keeps_every_box() {
    let file = movie(&[16, 100, 8]);
    let mut source = vec![0u8; 1024];
    source.extend_from_slice(&file);
    let report = recover(&source, &settings(512, MIB));
    assert_eq!(1, report.recovered);
    assert_eq!(file, report.files[0].data);
    assert_eq!(&source[1024..], &report.files[0].data[..]);
}

#[test]
fn a_stream_that_ends_inside_a_box_keeps_the_boxes_before_it() {
    let file = movie(&[16, 100, 80]);
    let mut source = vec![0u8; 1024];
    source.extend_from_slice(&file[..150]);
    let report = recover(&source, &settings(512, MIB));
    assert_eq!(1, report.recovered);
    assert_eq!(&file[..116], &report.files[0].data[..]);

    let mut source = vec![0u8; 1024];
    source.extend_from_slice(&file[..120]);
    let report = recover(&source, &settings(512, MIB));
    assert_eq!(&file[..116], &report.files[0].data[..]);
}

#[test]
fn a_dry_run_counts_the_files_and_writes_none() {
    let mut source = vec![0u8; 512];
    source.extend_from_slice(&movie(&[16, 8]));
    source.resize(2048, 0);
    source.extend_from_slice(&movie(&[32]));
    let wet = recover(&source, &settings(512, MIB));
    let dry = recover(&source, &Config { dry_run: true, ..settings(512, MIB) });
    assert_eq!(2, wet.recovered);
    assert_eq!(2, wet.files.len());
    assert_eq!(2, dry.recovered);
    assert!(dry.files.is_empty());
}

#[test]
fn every_file_on_a_block_boundary_is_recovered() {
    let first = movie(&[16, 600]);
    let second = movie(&[12]);
    let third = movie(&[40, 8, 8]);
    let mut source = first.clone();
    source.resize(1024, 0);
    source.extend_from_slice(&second);
    source.resize(1536, 0xff);
    source.extend_from_slice(&vec![0u8; 512]);
    source.extend_from_slice(&third);
    source.extend_from_slice(b"trailing bytes that are no box");
    let report = recover(&source, &Config { index: 7, ..settings(512, MIB) });
    assert_eq!(3, report.recovered);
    let found: Vec<(&str, u64, &[u8])> =
        report.files.iter().map(|f| (f.name.as_str(), f.offset, &f.data[..])).collect();
    assert_eq!(
        vec![
            ("video_7.mov", 0, &first[..]),
            ("video_8.mov", 1024, &second[..]),
            ("video_9.mov", 2048, &third[..]),
        ],
        found
    );
}

#[test]
fn a_file_that_starts_off_a_block_boundary_is_not_found() {
    let mut source = vec![0u8; 100];
    source.extend_from_slice(&movie(&[16, 8]));
    source.resize(4096, 0);
    assert_eq!(0, recover(&source, &settings(512, MIB)).recovered);
    assert_eq!(1, recover(&source, &settings(100, MIB)).recovered);
    assert_eq!(1, recover(&source, &settings(1, MIB)).recovered);
}

#[test]
fn a_file_start_inside_a_recovered_file_is_not_found_again() {
    let inner = movie(&[16]);
    let mut payload = vec![0u8; 504];
    payload.extend_from_slice(&inner);
    payload.resize(1016, 0);
    let mut source = movie(&[16]);
    source.resize(0, 0);
    source.extend_from_slice(&boxed(b"ftyp", 24, b"qt  \0\0\0\0\0\0\0\0\0\0\0\0"));
    source.extend_from_slice(&boxed(b"mdat", 1024 - 24, &vec![0u8; 1024 - 24 - 8]));
    source[512..528].copy_from_slice(&inner);
    source.resize(2048, 0);
    let report = recover(&source, &settings(512, MIB));
    assert_eq!(1, report.recovered);
    assert_eq!(1024, report.files[0].data.len());
    assert_eq!(&source[..1024], &report.files[0].data[..]);
}

#[test]
fn a_box_of_an_unknown_type_ends_the_file() {
    let mut source = movie(&[16, 24]);
    source.extend_from_slice(&boxed(b"trak", 16, &[0; 8]));
    source.extend_from_slice(&boxed(b"free", 16, &[0; 8]));
    let report = recover(&source, &settings(512, MIB));
    assert_eq!(1, report.recovered);
    assert_eq!(40, report.files[0].data.len());
}

#[test]
fn a_box_beyond_the_size_limit_ends_the_file() {
    let mut source = movie(&[16, 24, 200, 8]);
    source.resize(1024, 0);
    let report = recover(&source, &settings(512, 199));
    assert_eq!(40, report.files[0].data.len());
    let report = recover(&source, &settings(512, 200));
    assert_eq!(248, report.files[0].data.len());
}

#[test]
fn a_box_smaller_than_its_header_ends_the_file() {
    let mut source = movie(&[16]);
    source.extend_from_slice(&boxed(b"free", 7, &[]));
    source.extend_from_slice(&boxed(b"free", 8, &[]));
    let report = recover(&source, &settings(512, MIB));
    assert_eq!(16, report.files[0].data.len());
}

#[test]
fn a_file_type_box_too_short_for_the_brand_starts_no_file() {
    let mut source = boxed(b"ftyp", 8, &[]);
    source.extend_from_slice(b"qt  ");
    source.resize(512, 0);
    assert_eq!(0, recover(&source, &settings(512, MIB)).recovered);
    let mut source = boxed(b"ftyp", 11, b"qt ");
    source.extend_from_slice(b" ");
    source.resize(512, 0);
    assert_eq!(0, recover(&source, &settings(512, MIB)).recovered);
}

#[test]
fn a_truncated_probe_ends_the_scan_before_later_files() {
    let mut source = boxed(b"mdat", 4096, &[0; 8]);
    source.resize(512, 0);
    source.extend_from_slice(&movie(&[16]));
    assert_eq!(0, recover(&source, &settings(512, MIB)).recovered);
    source.resize(4096, 0);
    assert_eq!(1, recover(&source, &settings(512, MIB)).recovered);
}

#[test]
fn reads_hand_over_what_the_stream_has() {
    let source = [1u8, 2, 3, 4, 5];
    assert_eq!(&[1, 2, 3], read(&source, 0, 3));
    assert_eq!(&[3, 4, 5], read(&source, 2, 3));
    assert_eq!(&[4, 5], read(&source, 3, 3));
    assert_eq!(&[5], read(&source, 4, usize::MAX));
    assert!(read(&source, 5, 3).is_empty());
    assert!(read(&source, u64::MAX, 3).is_empty());
    assert!(read(&source, 1, 0).is_empty());
}
