use recovermov::mov::{is_valid_atom_type, starts_container, BoxHeader, HEADER_LEN, SIGNATURE_LEN};

#[test]
fn the_recognised_types_are_valid() {
    let known: [&[u8; 4]; 24] = [
        b"ftyp", b"mdat", b"moov", b"pnot", b"udta", b"uuid", b"moof", b"free", b"skip", b"jP2 ",
        b"wide", b"load", b"ctab", b"imap", b"matt", b"kmat", b"clip", b"crgn", b"sync", b"chap",
        b"tmcd", b"scpt", b"ssrc", b"PICT",
    ];
    for atom_type in known {
        assert!(is_valid_atom_type(*atom_type), "{:?}", atom_type);
    }
}

#[test]
fn other_types_are_not_valid() {
    let unknown: [&[u8; 4]; 9] = [
        b"FTYP", b"ftyq", b"\0\0\0\0", b"jp2 ", b"pict", b"mdau", b"trak", b"qt  ", b"typf",
    ];
    for atom_type in unknown {
        assert!(!is_valid_atom_type(*atom_type), "{:?}", atom_type);
    }
}

#[test]
fn a_header_is_a_big_endian_size_and_a_type() {
    let header = BoxHeader::parse(&[1, 2, 3, 4, b'm', b'd', b'a', b't']).unwrap();
    assert_eq!(0x0102_0304, header.size);
    assert_eq!(*b"mdat", header.atom_type);
    let header = BoxHeader::parse(&[0xff, 0xff, 0xff, 0xff, 0, 1, 2, 3, 9, 9]).unwrap();
    assert_eq!(u32::MAX, header.size);
    assert_eq!([0, 1, 2, 3], header.atom_type);
    let header = BoxHeader::parse(&[0, 0, 0, 16, b'f', b't', b'y', b'p']).unwrap();
    assert_eq!(16, header.size);
}

#[test]
fn there_is_no_header_in_fewer_than_eight_bytes() {
    assert_eq!(8, HEADER_LEN);
    assert!(BoxHeader::parse(&[]).is_none());
    assert!(BoxHeader::parse(&[0, 0, 0, 8, b'f', b'r', b'e']).is_none());
    assert!(BoxHeader::parse(&[0, 0, 0, 8, b'f', b'r', b'e', b'e']).is_some());
}

#[test]
fn a_box_has_a_known_type_and_a_size_in_range() {
    let sized = |size: u32| BoxHeader { size, atom_type: *b"free" };
    assert!(!sized(0).is_box(100));
    assert!(!sized(7).is_box(100));
    assert!(sized(8).is_box(100));
    assert!(sized(100).is_box(100));
    assert!(!sized(101).is_box(100));
    assert!(sized(u32::MAX).is_box(u64::MAX));
    assert!(!sized(8).is_box(7));
    assert!(!BoxHeader { size: 8, atom_type: *b"nope" }.is_box(100));
}

#[test]
fn a_file_starts_with_a_file_type_box_of_the_movie_brand() {
    assert_eq!(12, SIGNATURE_LEN);
    assert!(starts_container(b"ftyp", b"\0\0\0\x10ftypqt  \0\0\0\0"));
    assert!(starts_container(b"ftyp", b"\0\0\0\x0cftypqt  "));
    assert!(!starts_container(b"ftyp", b"\0\0\0\x10ftypisom\0\0\0\0"));
    assert!(!starts_container(b"ftyp", b"\0\0\0\x10ftypqt \0\0\0\0\0"));
    assert!(!starts_container(b"moov", b"\0\0\0\x10moovqt  \0\0\0\0"));
    assert!(!starts_container(b"ftyp", b"\0\0\0\x08ftyp"));
    assert!(!starts_container(b"ftyp", b"\0\0\0\x0bftypqt "));
}
