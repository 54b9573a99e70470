use recovermov::config::Config;
use recovermov::image::recover;
use recovermov::utils::u64_suffix;
use std::io::{Cursor, Read, Seek, SeekFrom};

/// Reads a size with the tools of the standard library.
fn size_by_std(text: &str, default_multiplier: u64) -> Option<u64> {
    let lowered = text.to_ascii_lowercase();
    let (quantity, base, marked) = match lowered.strip_suffix("ib") {
        Some(rest) => (rest, 1024u64, true),
        None => match lowered.strip_suffix('b') {
            Some(rest) => (rest, 1000, true),
            None => (lowered.as_str(), 1000, false),
        },
    };
    let last = quantity.chars().last()?;
    let (number, multiplier) = match last {
        'k' => (&quantity[..quantity.len() - 1], base),
        'm' => (&quantity[..quantity.len() - 1], base.pow(2)),
        'g' => (&quantity[..quantity.len() - 1], base.pow(3)),
        't' => (&quantity[..quantity.len() - 1], base.pow(4)),
        '0'..='9' => (quantity, if marked { 1 } else { default_multiplier }),
        _ => return None,
    };
    number.parse::<u64>().ok()?.checked_mul(multiplier)
}

fn texts(alphabet: &[char], len: usize) -> Vec<String> {
    let mut all = vec![String::new()];
    let mut last = all.clone();
    for _ in 0..len {
        let mut next = Vec::new();
        for text in &last {
            for c in alphabet {
                let mut longer = text.clone();
                longer.push(*c);
                next.push(longer);
            }
        }
        all.extend(next.iter().cloned());
        last = next;
    }
    all
}

#[test]
fn sizes_are_read_as_the_standard_library_reads_them() {
    let alphabet = ['0', '1', '9', 'k', 'M', 'g', 'T', 'i', 'I', 'b', 'B', '+', '-', ' ', 'µ', '٣'];
    let mut read = 0;
    for text in texts(&alphabet, 4) {
        for default_multiplier in [0, 1, 1 << 20] {
            let size = u64_suffix(&text, default_multiplier);
            assert_eq!(size_by_std(&text, default_multiplier), size, "{:?}", text);
            read += size.is_some() as usize;
        }
    }
    assert!(read > 1000);
}

#[test]
fn long_numbers_are_read_as_the_standard_library_reads_them() {
    let numbers = [
        "18446744073709551615",
        "18446744073709551616",
        "18446744073709551",
        "18446744073709552",
        "18014398509481983",
        "18014398509481984",
        "17592186044415",
        "17592186044416",
        "00000000000000000000000000000001",
        "+0000000000000000000018446744073709551615",
        "184467440737095516150",
        "99999999999999999999",
    ];
    for number in numbers {
        for suffix in ["", "b", "k", "kb", "kib", "M", "mib", "G", "gib", "t", "tb", "TiB", "ib"] {
            let text = format!("{}{}", number, suffix);
            for default_multiplier in [0, 1, 2, 1000, u64::MAX] {
                assert_eq!(
                    size_by_std(&text, default_multiplier),
                    u64_suffix(&text, default_multiplier),
                    "{:?}",
                    text
                );
            }
        }
    }
}

const KNOWN: [&[u8; 4]; 24] = [
    b"ftyp", b"mdat", b"moov", b"pnot", b"udta", b"uuid", b"moof", b"free", b"skip", b"jP2 ",
    b"wide", b"load", b"ctab", b"imap", b"matt", b"kmat", b"clip", b"crgn", b"sync", b"chap",
    b"tmcd", b"scpt", b"ssrc", b"PICT",
];

/// Reads the box at the cursor, if there is one. An error is the end of the
/// stream.
fn chunk_at(fd: &mut Cursor<&[u8]>, max_chunk_size: u64) -> std::io::Result<Option<([u8; 4], Vec<u8>)>> {
    let mut header = [0u8; 8];
    fd.read_exact(&mut header)?;
    fd.seek(SeekFrom::Current(-8))?;
    let size = u32::from_be_bytes([header[0], header[1], header[2], header[3]]);
    let atom_type = [header[4], header[5], header[6], header[7]];
    if !KNOWN.contains(&&atom_type) || u64::from(size) < 8 || u64::from(size) > max_chunk_size {
        return Ok(None);
    }
    let mut chunk = vec![0u8; size as usize];
    fd.read_exact(&mut chunk)?;
    Ok(Some((atom_type, chunk)))
}

/// Scans a stream through a cursor of the standard library.
fn scan_by_cursor(source: &[u8], block_size: u64, max_chunk_size: u64) -> Vec<(u64, Vec<u8>)> {
    let mut fd = Cursor::new(source);
    let mut files = Vec::new();
    let mut block = 0;
    loop {
        let pos = block * block_size;
        fd.seek(SeekFrom::Start(pos)).unwrap();
        let probe = match chunk_at(&mut fd, max_chunk_size) {
            Ok(probe) => probe,
            Err(_) => return files,
        };
        if let Some((atom_type, mut chunk)) = probe {
            if &atom_type == b"ftyp" && chunk.len() >= 12 && &chunk[8..12] == b"qt  " {
                let mut data = Vec::new();
                loop {
                    data.extend_from_slice(&chunk);
                    match chunk_at(&mut fd, max_chunk_size) {
                        Ok(Some((_, next))) => chunk = next,
                        _ => break,
                    }
                }
                block += (data.len() as u64 - 1) / block_size;
                files.push((pos, data));
            }
        }
        block += 1;
    }
}

struct Dice(u64);

impl Dice {
    fn roll(&mut self, sides: u64) -> u64 {
        self.0 = self.0.wrapping_mul(6364136223846793005).wrapping_add(1442695040888963407);
        (self.0 >> 33) % sides
    }
}

fn some_box(dice: &mut Dice, block_size: u64) -> Vec<u8> {
    let size = match dice.roll(6) {
        0 => 8,
        1 => 12,
        2 => block_size,
        3 => 8 + dice.roll(40),
        4 => dice.roll(12),
        _ => 8 + dice.roll(3 * block_size),
    } as u32;
    let atom_type: [u8; 4] = match dice.roll(8) {
        0 => *b"trak",
        1 | 2 | 3 => *b"ftyp",
        _ => *KNOWN[dice.roll(24) as usize],
    };
    let mut bytes = size.to_be_bytes().to_vec();
    bytes.extend_from_slice(&atom_type);
    if dice.roll(3) > 0 {
        bytes.extend_from_slice(if dice.roll(5) > 0 { b"qt  " } else { b"isom" });
    }
    while bytes.len() < size as usize {
        bytes.push(dice.roll(256) as u8);
    }
    bytes
}

fn some_stream(dice: &mut Dice, block_size: u64) -> Vec<u8> {
    let mut source = Vec::new();
    for _ in 0..dice.roll(12) {
        match dice.roll(5) {
            0 => source.extend((0..dice.roll(2 * block_size)).map(|_| 0u8)),
            1 => {
                while source.len() as u64 % block_size != 0 {
                    source.push(0xee);
                }
            }
            _ => source.extend_from_slice(&some_box(dice, block_size)),
        }
    }
    let keep = source.len() as u64 - dice.roll(source.len() as u64 / 4 + 1);
    source.truncate(keep as usize);
    source
}

#[test]
fn streams_are_scanned_as_a_cursor_scans_them() {
    let mut dice = Dice(2024);
    let mut found = 0;
    for round in 0..10_000 {
        let block_size = [1, 7, 16, 64, 512][round % 5];
        let max_chunk_size = [0, 11, 64, 1 << 20][dice.roll(4) as usize].max(dice.roll(3) * 600);
        let source = some_stream(&mut dice, block_size);
        let expected = scan_by_cursor(&source, block_size, max_chunk_size);
        let config = Config { block_size, max_chunk_size, ..Config::default() };
        let report = recover(&source, &config);
        let files: Vec<(u64, Vec<u8>)> =
            report.files.iter().map(|file| (file.offset, file.data.clone())).collect();
        assert_eq!(expected, files, "round {}", round);
        assert_eq!(expected.len() as u64, report.recovered);
        for (ordinal, file) in report.files.iter().enumerate() {
            assert_eq!(format!("video_{}.mov", ordinal + 1), file.name);
        }
        let dry = recover(&source, &Config { dry_run: true, ..config });
        assert_eq!(report.recovered, dry.recovered);
        assert!(dry.files.is_empty());
        found += expected.len();
    }
    assert!(found > 1000, "{}", found);
}
