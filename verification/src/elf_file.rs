//! Access to ELF files: the parser's functions, from the bytes of a file to plain values.

use elf::endian::LittleEndian;
use elf::ElfBytes;
use vstd::prelude::*;

verus! {

/// The error type of the ELF parser. Nothing is known of its values.
#[verifier::external_type_specification]
#[verifier::external_body]
pub struct ExParseError(elf::ParseError);

/// A section header of an ELF file.
#[derive(Clone, Copy, Debug, PartialEq, Eq, Structural)]
pub struct SectionHeader {
    pub sh_name: u32,
    pub sh_type: u32,
    pub sh_flags: u64,
    pub sh_addr: u64,
    pub sh_offset: u64,
    pub sh_size: u64,
    pub sh_link: u32,
    pub sh_info: u32,
    pub sh_addralign: u64,
    pub sh_entsize: u64,
}

/// Type of a section that takes no space in the file.
pub const SHT_NOBITS: u32 = 8;

/// Flag of a section whose contents are compressed.
pub const SHF_COMPRESSED: u64 = 0x800;

/// Position of the byte that tells 32-bit files (1) from 64-bit files (2).
pub const EI_CLASS: usize = 4;

/// Whether `ElfBytes::minimal_parse` accepts the file.
pub uninterp spec fn elf_parses(file: Seq<u8>) -> bool;

/// What `ElfBytes::section_headers_with_strtab` finds in the file: the section headers, if there
/// are any, and whether there is a table of section names. Nothing where it fails.
pub uninterp spec fn elf_sections(file: Seq<u8>) -> Option<(Option<Seq<SectionHeader>>, bool)>;

/// The string that `StringTable::get` finds at an offset of the file's table of section names.
/// Nothing where it fails or there is no such table.
pub uninterp spec fn elf_section_name(file: Seq<u8>, offset: u32) -> Option<Seq<char>>;

/// The first section of the given name.
pub open spec fn find_section(
    headers: Seq<SectionHeader>,
    file: Seq<u8>,
    name: Seq<char>,
) -> Option<SectionHeader>
    decreases headers.len(),
{
    if headers.len() == 0 {
        None
    } else if elf_section_name(file, headers[0].sh_name) == Some(name) {
        Some(headers[0])
    } else {
        find_section(headers.skip(1), file, name)
    }
}

/// What a section holds, and whether that is compressed. Nothing where the section reaches past
/// the end of the file, or is too short for the header that compressed contents begin with.
pub open spec fn section_contents(file: Seq<u8>, header: SectionHeader) -> Option<(Seq<u8>, bool)> {
    let header_len: int = if file[EI_CLASS as int] == 1 {
        12
    } else {
        24
    };
    if header.sh_type == SHT_NOBITS {
        Some((Seq::empty(), false))
    } else if header.sh_offset + header.sh_size > file.len() {
        None
    } else {
        let contents = file.subrange(
            header.sh_offset as int,
            header.sh_offset + header.sh_size,
        );
        if header.sh_flags & SHF_COMPRESSED == 0 {
            Some((contents, false))
        } else if contents.len() < header_len {
            None
        } else {
            Some((contents.skip(header_len), true))
        }
    }
}

/// `ElfBytes::minimal_parse`, for little-endian files: whether it accepts the file depends on the
/// file's bytes alone.
#[verifier::external_body]
pub(crate) fn parse_elf(file: &[u8]) -> (res: Result<(), elf::ParseError>)
    ensures
        res is Ok <==> elf_parses(file@),
{
    ElfBytes::<LittleEndian>::minimal_parse(file).map(|_| ())
}

/// `ElfBytes::section_headers_with_strtab`, with the headers read out of their table by
/// `ParsingTable::iter`, and whether there is a table of section names. Fails too where the file
/// cannot be parsed at all.
#[verifier::external_body]
pub(crate) fn read_sections(file: &[u8]) -> (res: Result<
    (Option<Vec<SectionHeader>>, bool),
    elf::ParseError,
>)
    ensures
        match res {
            Ok((Some(headers), named)) => elf_sections(file@) == Some((Some(headers@), named)),
            Ok((None, named)) => elf_sections(file@) == Some((None::<Seq<SectionHeader>>, named)),
            Err(_) => elf_sections(file@) is None,
        },
{
    let elf = ElfBytes::<LittleEndian>::minimal_parse(file)?;
    let (table, names) = elf.section_headers_with_strtab()?;
    let headers = table.map(|t| t.iter().map(|h| SectionHeader {
        sh_name: h.sh_name, sh_type: h.sh_type, sh_flags: h.sh_flags, sh_addr: h.sh_addr,
        sh_offset: h.sh_offset, sh_size: h.sh_size, sh_link: h.sh_link, sh_info: h.sh_info,
        sh_addralign: h.sh_addralign, sh_entsize: h.sh_entsize,
    }).collect());
    Ok((headers, names.is_some()))
}

/// `StringTable::get`, on the table of section names, which the file has to have: the string that
/// starts at the given offset of the table, or an error.
#[verifier::external_body]
pub(crate) fn read_section_name(file: &[u8], offset: u32) -> (res: Result<String, elf::ParseError>)
    requires
        elf_sections(file@) matches Some((_, named)) && named,
    ensures
        match res {
            Ok(name) => elf_section_name(file@, offset) == Some(name@),
            Err(_) => elf_section_name(file@, offset) is None,
        },
{
    let elf = ElfBytes::<LittleEndian>::minimal_parse(file)?;
    let (_, names) = elf.section_headers_with_strtab()?;
    names.unwrap().get(offset as usize).map(|name| name.to_string())
}

/// `ElfBytes::section_header_by_name`: the first header, in the order of the table, whose name is
/// the given one. A file without headers or without section names has no section of any name.
#[verifier::external_body]
pub(crate) fn read_header_by_name(file: &[u8], name: &str) -> (res: Result<
    Option<SectionHeader>,
    elf::ParseError,
>)
    ensures
        match res {
            Ok(found) => match elf_sections(file@) {
                Some((Some(headers), true)) => found == find_section(headers, file@, name@),
                Some(_) => found is None,
                None => false,
            },
            Err(_) => elf_sections(file@) is None,
        },
{
    let elf = ElfBytes::<LittleEndian>::minimal_parse(file)?;
    Ok(elf.section_header_by_name(name)?.map(|h| SectionHeader {
        sh_name: h.sh_name, sh_type: h.sh_type, sh_flags: h.sh_flags, sh_addr: h.sh_addr,
        sh_offset: h.sh_offset, sh_size: h.sh_size, sh_link: h.sh_link, sh_info: h.sh_info,
        sh_addralign: h.sh_addralign, sh_entsize: h.sh_entsize,
    }))
}

/// `ElfBytes::section_data`: the bytes that the header points to, and whether they are compressed.
/// A section of type `SHT_NOBITS` has none. Where the header has the flag `SHF_COMPRESSED`, the
/// bytes begin with a compression header, 12 bytes long in a 32-bit file and 24 in a 64-bit file,
/// which is left off. Fails where the bytes reach past the end of the file, or are too few for
/// that header.
#[verifier::external_body]
pub(crate) fn read_section_data<'a>(file: &'a [u8], header: &SectionHeader) -> (res: Result<
    (&'a [u8], bool),
    elf::ParseError,
>)
    requires
        elf_parses(file@),
    ensures
        match res {
            Ok((data, compressed)) => section_contents(file@, *header) == Some((data@, compressed)),
            Err(_) => section_contents(file@, *header) is None,
        },
{
    let elf = ElfBytes::<LittleEndian>::minimal_parse(file)?;
    let (data, compression) = elf.section_data(&elf::section::SectionHeader {
        sh_name: header.sh_name, sh_type: header.sh_type, sh_flags: header.sh_flags,
        sh_addr: header.sh_addr, sh_offset: header.sh_offset, sh_size: header.sh_size,
        sh_link: header.sh_link, sh_info: header.sh_info, sh_addralign: header.sh_addralign,
        sh_entsize: header.sh_entsize,
    })?;
    Ok((data, compression.is_some()))
}

} // verus!
