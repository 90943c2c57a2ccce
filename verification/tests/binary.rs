use erasure::binary::{assemble_program, LoadError, LoadedBinary, ProgramError, SectionError};
use erasure::elf_file::SectionHeader;
use erasure::listing::{list_sections, section_lines, sort_by_address, ListingError};

/// A section of a file under construction.
struct Section {
    name: u32,
    kind: u32,
    flags: u64,
    addr: u64,
    offset: u64,
    size: u64,
}

/// Name offsets in the table `NAMES`.
const NAMES: &[u8] = b"\0.text\0.rodata\0.shstrtab\0.bss\0";
const TEXT: u32 = 1;
const RODATA: u32 = 7;
const SHSTRTAB: u32 = 15;
const BSS: u32 = 25;

const TEXT_BYTES: [u8; 6] = [1, 2, 3, 4, 5, 6];
const RODATA_BYTES: [u8; 3] = [0xa, 0xb, 0xc];

/// Where the contents lie in a file: behind the header of 64 bytes.
const TEXT_AT: u64 = 64;
const RODATA_AT: u64 = 70;
const NAMES_AT: u64 = 73;

fn sections() -> Vec<Section> {
    vec![
        Section { name: 0, kind: 0, flags: 0, addr: 0, offset: 0, size: 0 },
        Section { name: RODATA, kind: 1, flags: 2, addr: 0x1008, offset: RODATA_AT, size: 3 },
        Section { name: TEXT, kind: 1, flags: 6, addr: 0x1000, offset: TEXT_AT, size: 6 },
        Section {
            name: SHSTRTAB,
            kind: 3,
            flags: 0,
            addr: 0,
            offset: NAMES_AT,
            size: NAMES.len() as u64,
        },
        Section { name: BSS, kind: 8, flags: 3, addr: 0x20000000, offset: 9999, size: 4096 },
    ]
}

/// A 64-bit little-endian ELF file with the given section table.
fn file(sections: &[Section], names_index: u16) -> Vec<u8> {
    let mut bytes: Vec<u8> = vec![0x7f, b'E', b'L', b'F', 2, 1, 1, 0];
    bytes.extend([0u8; 8]);
    bytes.extend(2u16.to_le_bytes());
    bytes.extend(243u16.to_le_bytes());
    bytes.extend(1u32.to_le_bytes());
    bytes.extend(0u64.to_le_bytes());
    bytes.extend(0u64.to_le_bytes());
    let table_at: u64 = if sections.is_empty() { 0 } else { NAMES_AT + NAMES.len() as u64 };
    bytes.extend(table_at.to_le_bytes());
    bytes.extend(0u32.to_le_bytes());
    for half in [64u16, 0, 0, 64, sections.len() as u16, names_index] {
        bytes.extend(half.to_le_bytes());
    }
    assert_eq!(bytes.len() as u64, TEXT_AT);
    bytes.extend(TEXT_BYTES);
    bytes.extend(RODATA_BYTES);
    bytes.extend(NAMES);
    for section in sections {
        bytes.extend(section.name.to_le_bytes());
        bytes.extend(section.kind.to_le_bytes());
        for word in [section.flags, section.addr, section.offset, section.size] {
            bytes.extend(word.to_le_bytes());
        }
        bytes.extend(0u32.to_le_bytes());
        bytes.extend(0u32.to_le_bytes());
        bytes.extend(4u64.to_le_bytes());
        bytes.extend(0u64.to_le_bytes());
    }
    bytes
}

fn load(bytes: &[u8]) -> LoadedBinary<'_> {
    match LoadedBinary::load(bytes) {
        Ok(binary) => binary,
        Err(_) => panic!("refused"),
    }
}

fn program_of(sections: &[Section]) -> Result<Vec<u8>, ProgramError> {
    load(&file(sections, 3)).get_device_program()
}

fn header(addr: u64, size: u64) -> SectionHeader {
    SectionHeader {
        sh_name: 0,
        sh_type: 1,
        sh_flags: 0,
        sh_addr: addr,
        sh_offset: 0,
        sh_size: size,
        sh_link: 0,
        sh_info: 0,
        sh_addralign: 0,
        sh_entsize: 0,
    }
}

#[test]
fn other_files_are_refused() {
    assert!(LoadedBinary::load(b"not an ELF file at all").err() == Some(LoadError::NotElf));
    let mut big_endian = file(&sections(), 3);
    big_endian[5] = 2;
    assert!(LoadedBinary::load(&big_endian).err() == Some(LoadError::NotElf));
    let good = file(&sections(), 3);
    assert_eq!(load(&good).bytes(), &good[..]);
}

#[test]
fn sections_are_found_by_name() {
    let bytes = file(&sections(), 3);
    let binary = load(&bytes);
    let text = binary.get_section_header(".text").unwrap();
    assert_eq!(text.sh_name, TEXT);
    assert_eq!(text.sh_type, 1);
    assert_eq!(text.sh_flags, 6);
    assert_eq!(text.sh_addr, 0x1000);
    assert_eq!(text.sh_offset, TEXT_AT);
    assert_eq!(text.sh_size, 6);
    assert_eq!(text.sh_addralign, 4);
    assert_eq!(binary.get_section_header(".data"), Err(SectionError::NotFound));
    assert_eq!(binary.get_section_data(".rodata"), Ok(&RODATA_BYTES[..]));
    assert_eq!(binary.get_section_data(".bss"), Ok(&[][..]));
    assert_eq!(binary.get_section_data(".data"), Err(SectionError::NotFound));
    assert_eq!(binary.section_data(&text), Ok(&TEXT_BYTES[..]));
}

#[test]
fn first_section_of_a_name_counts() {
    let mut twice = sections();
    twice[4].name = TEXT;
    let bytes = file(&twice, 3);
    assert_eq!(load(&bytes).get_section_header(".text").unwrap().sh_addr, 0x1000);
}

#[test]
fn sections_without_names_are_not_found() {
    let bytes = file(&sections(), 0);
    assert_eq!(load(&bytes).get_section_header(".text"), Err(SectionError::NotFound));
    let bytes = file(&[], 0);
    assert_eq!(load(&bytes).get_section_header(".text"), Err(SectionError::NotFound));
}

#[test]
fn broken_section_table() {
    let bytes = file(&sections(), 40);
    let binary = load(&bytes);
    assert_eq!(binary.get_section_header(".text"), Err(SectionError::UnreadableTable));
    assert_eq!(binary.get_section_data(".text"), Err(SectionError::UnreadableTable));
    assert_eq!(
        binary.get_device_program(),
        Err(ProgramError::Text(SectionError::UnreadableTable))
    );
    assert!(list_sections(&binary).err() == Some(ListingError::UnreadableHeaders));
}

#[test]
fn contents_past_the_end() {
    let mut broken = sections();
    broken[1].size = 100000;
    assert_eq!(
        program_of(&broken),
        Err(ProgramError::Rodata(SectionError::UnreadableContents))
    );
    broken[2].offset = u64::MAX;
    assert_eq!(
        program_of(&broken),
        Err(ProgramError::Text(SectionError::UnreadableContents))
    );
}

#[test]
fn compressed_contents() {
    let mut compressed = sections();
    compressed[1].flags = 0x802;
    compressed[1].size = 23;
    assert_eq!(
        program_of(&compressed),
        Err(ProgramError::Rodata(SectionError::UnreadableContents))
    );
    compressed[1].size = 24;
    assert_eq!(
        program_of(&compressed),
        Err(ProgramError::Rodata(SectionError::Compressed))
    );
}

#[test]
fn program_is_text_padding_and_rodata() {
    assert_eq!(program_of(&sections()), Ok(vec![1, 2, 3, 4, 5, 6, 0, 0, 0xa, 0xb, 0xc]));
}

#[test]
fn program_has_to_match_the_memory_layout() {
    let mut moved = sections();
    moved[1].addr = 0x100c;
    assert_eq!(program_of(&moved), Err(ProgramError::NotAdjacent));
    moved[1].addr = 0x1006;
    assert_eq!(
        program_of(&moved),
        Err(ProgramError::Misaligned { text: 0x1000, rodata: 0x1006 })
    );
    let mut missing = sections();
    missing[1].name = BSS;
    assert_eq!(program_of(&missing), Err(ProgramError::Rodata(SectionError::NotFound)));
}

#[test]
fn assembling_programs() {
    assert_eq!(assemble_program(&[], 8, &[], 8), Ok(vec![]));
    assert_eq!(assemble_program(&[9; 4], 8, &[7], 12), Ok(vec![9, 9, 9, 9, 7]));
    assert_eq!(assemble_program(&[9; 5], 8, &[7], 16), Ok(vec![9, 9, 9, 9, 9, 0, 0, 0, 7]));
    assert_eq!(assemble_program(&[9; 5], 8, &[7], 12), Err(ProgramError::NotAdjacent));
    assert_eq!(
        assemble_program(&[9; 4], 2, &[7], 6),
        Err(ProgramError::Misaligned { text: 2, rodata: 6 })
    );
    assert_eq!(
        assemble_program(&[9; 8], u64::MAX - 3, &[7], 4),
        Err(ProgramError::NotAdjacent)
    );
}

#[test]
fn sorting_is_stable() {
    let headers = vec![header(5, 1), header(3, 2), header(5, 3), header(0, 4), header(3, 5)];
    let sorted: Vec<(u64, u64)> =
        sort_by_address(&headers).iter().map(|h| (h.sh_addr, h.sh_size)).collect();
    assert_eq!(sorted, vec![(0, 4), (3, 2), (3, 5), (5, 1), (5, 3)]);
    assert!(sort_by_address(&Vec::new()).is_empty());
}

#[test]
fn listing_of_a_file() {
    let bytes = file(&sections(), 3);
    let listing = match list_sections(&load(&bytes)) {
        Ok(listing) => listing,
        Err(_) => panic!("no listing"),
    };
    assert!(listing.complete);
    assert_eq!(
        listing.lines,
        vec![
            "0x001000: .text, size 6".to_string(),
            "0x001008: .rodata, size 3".to_string(),
            "0x20000000: .bss, size 4096".to_string(),
        ]
    );
}

#[test]
fn listing_stops_at_an_unknown_name() {
    let mut unnamed = sections();
    unnamed[1].name = 5000;
    let bytes = file(&unnamed, 3);
    let listing = match list_sections(&load(&bytes)) {
        Ok(listing) => listing,
        Err(_) => panic!("no listing"),
    };
    assert!(!listing.complete);
    assert_eq!(listing.lines, vec!["0x001000: .text, size 6".to_string()]);
}

#[test]
fn files_without_a_listing() {
    let bytes = file(&[], 0);
    assert!(list_sections(&load(&bytes)).err() == Some(ListingError::NoHeaders));
    let bytes = file(&sections(), 0);
    assert!(list_sections(&load(&bytes)).err() == Some(ListingError::NoNames));
}

#[test]
fn lines_of_sections() {
    let headers = vec![header(0, 1), header(0x60000, 2), header(0x123456789, 3)];
    let names = vec![Some("a".to_string()), Some("b".to_string()), Some("c".to_string())];
    let listing = section_lines(&headers, &names);
    assert!(listing.complete);
    assert_eq!(
        listing.lines,
        vec!["0x060000: b, size 2".to_string(), "0x123456789: c, size 3".to_string()]
    );
}
