//! The program that is expected to run on the device, read from its ELF file.

use vstd::prelude::*;

use crate::elf_file::{parse_elf, read_header_by_name, read_section_data, SectionHeader};
use crate::elf_file::{elf_parses, elf_section_name, elf_sections};
use crate::elf_file::{find_section, section_contents};
use crate::shiftxor::zero_bytes;

verus! {

/// Why a file is not taken for an ELF file of the right kind.
#[derive(Clone, Copy, Debug, PartialEq, Eq, Structural)]
pub enum LoadError {
    NotElf,
}

/// Why a section cannot be had.
#[derive(Clone, Copy, Debug, PartialEq, Eq, Structural)]
pub enum SectionError {
    /// The section table cannot be parsed.
    UnreadableTable,
    /// There is no section of that name.
    NotFound,
    /// The contents of the section cannot be parsed.
    UnreadableContents,
    /// The contents are compressed.
    Compressed,
}

/// Why the device's program cannot be put together.
#[derive(Clone, Copy, Debug, PartialEq, Eq, Structural)]
pub enum ProgramError {
    /// The `.text` section cannot be had.
    Text(SectionError),
    /// The `.rodata` section cannot be had.
    Rodata(SectionError),
    /// One of the two sections does not start at a multiple of four.
    Misaligned { text: u64, rodata: u64 },
    /// `.rodata` does not follow `.text` at the next multiple of four.
    NotAdjacent,
}

/// The header of a named section, or why there is none.
pub open spec fn named_header(file: Seq<u8>, name: Seq<char>) -> Result<
    SectionHeader,
    SectionError,
> {
    match elf_sections(file) {
        None => Err(SectionError::UnreadableTable),
        Some((Some(headers), true)) => match find_section(headers, file, name) {
            Some(header) => Ok(header),
            None => Err(SectionError::NotFound),
        },
        Some(_) => Err(SectionError::NotFound),
    }
}

/// The contents that a section header points to, or why there are none.
pub open spec fn uncompressed_contents(file: Seq<u8>, header: SectionHeader) -> Result<
    Seq<u8>,
    SectionError,
> {
    match section_contents(file, header) {
        None => Err(SectionError::UnreadableContents),
        Some((data, compressed)) => if compressed {
            Err(SectionError::Compressed)
        } else {
            Ok(data)
        },
    }
}

/// The contents of a named section, or why there are none.
pub open spec fn named_contents(file: Seq<u8>, name: Seq<char>) -> Result<Seq<u8>, SectionError> {
    match named_header(file, name) {
        Ok(header) => uncompressed_contents(file, header),
        Err(error) => Err(error),
    }
}

/// Bytes, filled up with zeros to a multiple of four.
pub open spec fn word_aligned(bytes: Seq<u8>) -> Seq<u8> {
    bytes + zero_bytes(((4 - bytes.len() % 4) % 4) as nat)
}

/// The memory image of the program: `.text`, zeros up to the next multiple of four, `.rodata`.
pub open spec fn program_image(
    text: Seq<u8>,
    text_addr: u64,
    rodata: Seq<u8>,
    rodata_addr: u64,
) -> Result<Seq<u8>, ProgramError> {
    if text_addr % 4 != 0 || rodata_addr % 4 != 0 {
        Err(ProgramError::Misaligned { text: text_addr, rodata: rodata_addr })
    } else if text_addr + word_aligned(text).len() != rodata_addr {
        Err(ProgramError::NotAdjacent)
    } else {
        Ok(word_aligned(text) + rodata)
    }
}

/// The program that the file holds for the device.
pub open spec fn device_program(file: Seq<u8>) -> Result<Seq<u8>, ProgramError> {
    match (named_contents(file, ".text"@), named_header(file, ".text"@)) {
        (Ok(text), Ok(text_header)) => match (
            named_contents(file, ".rodata"@),
            named_header(file, ".rodata"@),
        ) {
            (Ok(rodata), Ok(rodata_header)) => program_image(
                text,
                text_header.sh_addr,
                rodata,
                rodata_header.sh_addr,
            ),
            (Err(error), _) => Err(ProgramError::Rodata(error)),
            (_, Err(error)) => Err(ProgramError::Rodata(error)),
        },
        (Err(error), _) => Err(ProgramError::Text(error)),
        (_, Err(error)) => Err(ProgramError::Text(error)),
    }
}

/// Puts the program together from its two sections.
///
/// The layout is that of the linker script: both sections start at multiples of four, and
/// `.rodata` directly follows `.text`.
pub fn assemble_program(text: &[u8], text_addr: u64, rodata: &[u8], rodata_addr: u64) -> (res:
    Result<Vec<u8>, ProgramError>)
    ensures
        match res {
            Ok(program) => program_image(text@, text_addr, rodata@, rodata_addr) == Ok::<
                Seq<u8>,
                ProgramError,
            >(program@),
            Err(error) => program_image(text@, text_addr, rodata@, rodata_addr) == Err::<
                Seq<u8>,
                ProgramError,
            >(error),
        },
{
    if text_addr % 4 != 0 || rodata_addr % 4 != 0 {
        return Err(ProgramError::Misaligned { text: text_addr, rodata: rodata_addr });
    }
    let mut out: Vec<u8> = Vec::new();
    out.extend_from_slice(text);
    let ghost mut gap: nat = 0;
    assert(out@ =~= text@ + zero_bytes(0));
    while out.len() % 4 != 0
        invariant
            out@ == text@ + zero_bytes(gap),
            gap <= (4 - text@.len() % 4) % 4,
        decreases (4 - out@.len() % 4) % 4,
    {
        out.push(0u8);
        proof {
            gap = gap + 1;
            assert(out@ =~= text@ + zero_bytes(gap));
        }
    }
    assert(out@ == word_aligned(text@));
    if text_addr as u128 + out.len() as u128 != rodata_addr as u128 {
        return Err(ProgramError::NotAdjacent);
    }
    out.extend_from_slice(rodata);
    assert(out@ =~= word_aligned(text@) + rodata@);
    Ok(out)
}

/// In the image, each section's bytes lie where they lie in the device's memory, relative to the
/// start of `.text`, and the gap between the sections is zero.
pub proof fn law_image_mirrors_memory(
    text: Seq<u8>,
    text_addr: u64,
    rodata: Seq<u8>,
    rodata_addr: u64,
)
    requires
        program_image(text, text_addr, rodata, rodata_addr) is Ok,
    ensures
        ({
            let image = program_image(text, text_addr, rodata, rodata_addr)->Ok_0;
            let start = rodata_addr - text_addr;
            &&& text.len() <= start < text.len() + 4
            &&& image.len() == start + rodata.len()
            &&& forall|i: int| 0 <= i < text.len() ==> image[i] == text[i]
            &&& forall|i: int| text.len() <= i < start ==> image[i] == 0
            &&& forall|i: int| 0 <= i < rodata.len() ==> image[start + i] == rodata[i]
        }),
{
}

/// When there is an image, and when there is none: both addresses are multiples of four, and
/// `.rodata` lies at the first multiple of four behind `.text`.
pub proof fn law_image_exists(text: Seq<u8>, text_addr: u64, rodata: Seq<u8>, rodata_addr: u64)
    ensures
        ({
            let image = program_image(text, text_addr, rodata, rodata_addr);
            let start = rodata_addr - text_addr;
            if text_addr % 4 != 0 || rodata_addr % 4 != 0 {
                image == Err::<Seq<u8>, ProgramError>(
                    ProgramError::Misaligned { text: text_addr, rodata: rodata_addr },
                )
            } else if text.len() <= start < text.len() + 4 {
                image is Ok
            } else {
                image == Err::<Seq<u8>, ProgramError>(ProgramError::NotAdjacent)
            }
        }),
{
}

/// The header of a named section is the first in the table that has the name.
pub proof fn law_first_section_of_name(file: Seq<u8>, name: Seq<char>)
    ensures
        match (elf_sections(file), named_header(file, name)) {
            (None, found) => found == Err::<SectionHeader, SectionError>(
                SectionError::UnreadableTable,
            ),
            (Some((Some(headers), true)), Ok(header)) => exists|i: int|
                #![trigger headers[i]]
                {
                    &&& 0 <= i < headers.len()
                    &&& headers[i] == header
                    &&& elf_section_name(file, header.sh_name) == Some(name)
                    &&& forall|j: int|
                        0 <= j < i ==> elf_section_name(file, (#[trigger] headers[j]).sh_name)
                            != Some(name)
                },
            (Some((Some(headers), true)), Err(error)) => {
                &&& error == SectionError::NotFound
                &&& forall|j: int|
                    0 <= j < headers.len() ==> elf_section_name(
                        file,
                        (#[trigger] headers[j]).sh_name,
                    ) != Some(name)
            },
            (_, found) => found == Err::<SectionHeader, SectionError>(SectionError::NotFound),
        },
{
    if let Some((Some(headers), true)) = elf_sections(file) {
        lemma_first_of_name(headers, file, name);
    }
}

proof fn lemma_first_of_name(headers: Seq<SectionHeader>, file: Seq<u8>, name: Seq<char>)
    ensures
        match find_section(headers, file, name) {
            Some(header) => exists|i: int|
                #![trigger headers[i]]
                {
                    &&& 0 <= i < headers.len()
                    &&& headers[i] == header
                    &&& elf_section_name(file, header.sh_name) == Some(name)
                    &&& forall|j: int|
                        0 <= j < i ==> elf_section_name(file, (#[trigger] headers[j]).sh_name)
                            != Some(name)
                },
            None => forall|j: int|
                0 <= j < headers.len() ==> elf_section_name(file, (#[trigger] headers[j]).sh_name)
                    != Some(name),
        },
    decreases headers.len(),
{
    if headers.len() > 0 {
        if elf_section_name(file, headers[0].sh_name) == Some(name) {
            assert(headers[0] == find_section(headers, file, name)->0);
        } else {
            let rest = headers.skip(1);
            lemma_first_of_name(rest, file, name);
            match find_section(rest, file, name) {
                Some(header) => {
                    let i = choose|i: int|
                        #![trigger rest[i]]
                        {
                            &&& 0 <= i < rest.len()
                            &&& rest[i] == header
                            &&& elf_section_name(file, header.sh_name) == Some(name)
                            &&& forall|j: int|
                                0 <= j < i ==> elf_section_name(file, (#[trigger] rest[j]).sh_name)
                                    != Some(name)
                        };
                    assert(headers[i + 1] == header);
                    assert forall|j: int| 0 <= j < i + 1 implies elf_section_name(
                        file,
                        (#[trigger] headers[j]).sh_name,
                    ) != Some(name) by {
                        if j > 0 {
                            assert(rest[j - 1] == headers[j]);
                        }
                    }
                },
                None => {
                    assert forall|j: int| 0 <= j < headers.len() implies elf_section_name(
                        file,
                        (#[trigger] headers[j]).sh_name,
                    ) != Some(name) by {
                        if j > 0 {
                            assert(rest[j - 1] == headers[j]);
                        }
                    }
                },
            }
        }
    }
}

/// The contents of a named section are those that its header points to, unless they are compressed
/// or cannot be had.
pub proof fn law_contents_of_name(file: Seq<u8>, name: Seq<char>)
    ensures
        match named_header(file, name) {
            Err(error) => named_contents(file, name) == Err::<Seq<u8>, SectionError>(error),
            Ok(header) => match section_contents(file, header) {
                None => named_contents(file, name) == Err::<Seq<u8>, SectionError>(
                    SectionError::UnreadableContents,
                ),
                Some((_, true)) => named_contents(file, name) == Err::<Seq<u8>, SectionError>(
                    SectionError::Compressed,
                ),
                Some((data, false)) => named_contents(file, name) == Ok::<Seq<u8>, SectionError>(
                    data,
                ),
            },
        },
{
}

/// What a section header points to: the bytes of the file from its offset on, as many as its size
/// says, unless it takes no space in the file, reaches past the end of the file or is compressed.
pub proof fn law_section_bytes(file: Seq<u8>, header: SectionHeader)
    ensures
        ({
            let contents = uncompressed_contents(file, header);
            let least = if file[4] == 1 {
                12int
            } else {
                24int
            };
            if header.sh_type == 8 {
                contents matches Ok(data) && data.len() == 0
            } else if header.sh_offset + header.sh_size > file.len() {
                contents == Err::<Seq<u8>, SectionError>(SectionError::UnreadableContents)
            } else if header.sh_flags & 0x800 == 0 {
                &&& contents matches Ok(data)
                &&& data.len() == header.sh_size
                &&& forall|i: int|
                    0 <= i < header.sh_size ==> #[trigger] data[i] == file[header.sh_offset + i]
            } else if header.sh_size < least {
                contents == Err::<Seq<u8>, SectionError>(SectionError::UnreadableContents)
            } else {
                contents == Err::<Seq<u8>, SectionError>(SectionError::Compressed)
            }
        }),
{
}

/// The program of a file, byte by byte: where `.text` and `.rodata` take up space in the file, each
/// of their bytes is the file's byte at the same place behind the section's offset, and there is
/// nothing behind the last one.
pub proof fn law_program_bytes_of_file(file: Seq<u8>)
    requires
        device_program(file) is Ok,
    ensures
        ({
            let program = device_program(file)->Ok_0;
            let text = named_header(file, ".text"@)->Ok_0;
            let rodata = named_header(file, ".rodata"@)->Ok_0;
            let start = rodata.sh_addr - text.sh_addr;
            &&& named_header(file, ".text"@) is Ok
            &&& named_header(file, ".rodata"@) is Ok
            &&& text.sh_type != 8 ==> {
                &&& text.sh_size <= start < text.sh_size + 4
                &&& forall|i: int|
                    0 <= i < text.sh_size ==> #[trigger] program[i] == file[text.sh_offset + i]
                &&& forall|i: int| text.sh_size <= i < start ==> #[trigger] program[i] == 0
            }
            &&& text.sh_type == 8 ==> start == 0
            &&& rodata.sh_type != 8 ==> {
                &&& program.len() == start + rodata.sh_size
                &&& forall|i: int|
                    start <= i < program.len() ==> #[trigger] program[i] == file[rodata.sh_offset
                        + (i - start)]
            }
            &&& rodata.sh_type == 8 ==> program.len() == start
        }),
{
    let program = device_program(file)->Ok_0;
    let text = named_header(file, ".text"@)->Ok_0;
    let rodata = named_header(file, ".rodata"@)->Ok_0;
    let start = rodata.sh_addr - text.sh_addr;
    law_program_holds_sections(file);
    law_section_bytes(file, text);
    law_section_bytes(file, rodata);
    let contents = named_contents(file, ".rodata"@)->Ok_0;
    assert forall|i: int| start <= i < program.len() implies #[trigger] program[i] == contents[i
        - start] by {
        assert(program[start + (i - start)] == contents[i - start]);
    }
}

/// The program of a file holds every byte of the file's `.text` and every byte of its `.rodata`,
/// each as far from the start as it lies in the device's memory, and zeros in between.
pub proof fn law_program_holds_sections(file: Seq<u8>)
    requires
        device_program(file) is Ok,
    ensures
        ({
            let program = device_program(file)->Ok_0;
            &&& named_contents(file, ".text"@) matches Ok(text)
            &&& named_contents(file, ".rodata"@) matches Ok(rodata)
            &&& named_header(file, ".text"@) matches Ok(text_header)
            &&& named_header(file, ".rodata"@) matches Ok(rodata_header)
            &&& text_header.sh_addr % 4 == 0
            &&& rodata_header.sh_addr % 4 == 0
            &&& text.len() <= rodata_header.sh_addr - text_header.sh_addr < text.len() + 4
            &&& program.len() == rodata_header.sh_addr - text_header.sh_addr + rodata.len()
            &&& forall|i: int| 0 <= i < text.len() ==> program[i] == text[i]
            &&& forall|i: int|
                text.len() <= i < rodata_header.sh_addr - text_header.sh_addr ==> program[i] == 0
            &&& forall|i: int|
                0 <= i < rodata.len() ==> program[rodata_header.sh_addr - text_header.sh_addr + i]
                    == #[trigger] rodata[i]
        }),
{
    let (text, rodata) = (
        named_contents(file, ".text"@)->Ok_0,
        named_contents(file, ".rodata"@)->Ok_0,
    );
    let text_addr = named_header(file, ".text"@)->Ok_0.sh_addr;
    let rodata_addr = named_header(file, ".rodata"@)->Ok_0.sh_addr;
    law_image_mirrors_memory(text, text_addr, rodata, rodata_addr);
    law_image_exists(text, text_addr, rodata, rodata_addr);
}

/// When a file has a program, and why it has none: first `.text` has to be had, then `.rodata`,
/// then both have to start at multiples of four, `.rodata` at the first one behind `.text`.
pub proof fn law_program_exists(file: Seq<u8>)
    ensures
        match (named_contents(file, ".text"@), named_contents(file, ".rodata"@)) {
            (Err(error), _) => device_program(file) == Err::<Seq<u8>, ProgramError>(
                ProgramError::Text(error),
            ),
            (Ok(_), Err(error)) => device_program(file) == Err::<Seq<u8>, ProgramError>(
                ProgramError::Rodata(error),
            ),
            (Ok(text), Ok(_)) => {
                let text_addr = named_header(file, ".text"@)->Ok_0.sh_addr;
                let rodata_addr = named_header(file, ".rodata"@)->Ok_0.sh_addr;
                if text_addr % 4 != 0 || rodata_addr % 4 != 0 {
                    device_program(file) == Err::<Seq<u8>, ProgramError>(
                        ProgramError::Misaligned { text: text_addr, rodata: rodata_addr },
                    )
                } else if text.len() <= rodata_addr - text_addr < text.len() + 4 {
                    device_program(file) is Ok
                } else {
                    device_program(file) == Err::<Seq<u8>, ProgramError>(ProgramError::NotAdjacent)
                }
            },
        },
{
    let text = named_contents(file, ".text"@);
    let rodata = named_contents(file, ".rodata"@);
    if text is Ok && rodata is Ok {
        law_image_exists(
            text->Ok_0,
            named_header(file, ".text"@)->Ok_0.sh_addr,
            rodata->Ok_0,
            named_header(file, ".rodata"@)->Ok_0.sh_addr,
        );
    }
}

/// An ELF file that has been accepted.
pub struct LoadedBinary<'a> {
    file: &'a [u8],
}

impl<'a> View for LoadedBinary<'a> {
    type V = Seq<u8>;

    /// The bytes of the file.
    closed spec fn view(&self) -> Seq<u8> {
        self.file@
    }
}

impl<'a> LoadedBinary<'a> {
    #[verifier::type_invariant]
    spec fn accepted(self) -> bool {
        elf_parses(self.file@)
    }

    /// Accepts the bytes of a little-endian ELF file.
    pub fn load(file: &'a [u8]) -> (res: Result<LoadedBinary<'a>, LoadError>)
        ensures
            match res {
                Ok(binary) => elf_parses(file@) && binary@ == file@,
                Err(error) => !elf_parses(file@) && error == LoadError::NotElf,
            },
    {
        match parse_elf(file) {
            Ok(_) => Ok(LoadedBinary { file }),
            Err(_) => Err(LoadError::NotElf),
        }
    }

    /// The bytes of the file.
    pub fn bytes(&self) -> (res: &'a [u8])
        ensures
            res@ == self@,
    {
        self.file
    }

    /// Looks up a section by its name.
    pub fn get_section_header(&self, section_name: &str) -> (res: Result<
        SectionHeader,
        SectionError,
    >)
        ensures
            res == named_header(self@, section_name@),
    {
        match read_header_by_name(self.file, section_name) {
            Ok(Some(header)) => Ok(header),
            Ok(None) => Err(SectionError::NotFound),
            Err(_) => Err(SectionError::UnreadableTable),
        }
    }

    /// The contents of a section, which must not be compressed.
    pub fn get_section_data(&self, section_name: &str) -> (res: Result<&'a [u8], SectionError>)
        ensures
            match res {
                Ok(data) => named_contents(self@, section_name@) == Ok::<Seq<u8>, SectionError>(
                    data@,
                ),
                Err(error) => named_contents(self@, section_name@) == Err::<Seq<u8>, SectionError>(
                    error,
                ),
            },
    {
        match self.get_section_header(section_name) {
            Ok(header) => self.section_data(&header),
            Err(error) => Err(error),
        }
    }

    /// The contents that a section header points to, which must not be compressed.
    pub fn section_data(&self, header: &SectionHeader) -> (res: Result<&'a [u8], SectionError>)
        ensures
            match res {
                Ok(data) => uncompressed_contents(self@, *header) == Ok::<Seq<u8>, SectionError>(
                    data@,
                ),
                Err(error) => uncompressed_contents(self@, *header) == Err::<
                    Seq<u8>,
                    SectionError,
                >(error),
            },
    {
        proof {
            use_type_invariant(self);
        }
        match read_section_data(self.file, header) {
            Ok((data, compressed)) => if compressed {
                Err(SectionError::Compressed)
            } else {
                Ok(data)
            },
            Err(_) => Err(SectionError::UnreadableContents),
        }
    }

    /// The program that is expected to be loaded on the device: the `.text` and `.rodata`
    /// sections, with padding in between where `.rodata` has to be aligned to four bytes.
    pub fn get_device_program(&self) -> (res: Result<Vec<u8>, ProgramError>)
        ensures
            match res {
                Ok(program) => device_program(self@) == Ok::<Seq<u8>, ProgramError>(program@),
                Err(error) => device_program(self@) == Err::<Seq<u8>, ProgramError>(error),
            },
    {
        let text: &[u8] = match self.get_section_data(".text") {
            Ok(data) => data,
            Err(error) => {
                return Err(ProgramError::Text(error));
            },
        };
        let text_header: SectionHeader = match self.get_section_header(".text") {
            Ok(header) => header,
            Err(error) => {
                return Err(ProgramError::Text(error));
            },
        };
        let rodata: &[u8] = match self.get_section_data(".rodata") {
            Ok(data) => data,
            Err(error) => {
                return Err(ProgramError::Rodata(error));
            },
        };
        let rodata_header: SectionHeader = match self.get_section_header(".rodata") {
            Ok(header) => header,
            Err(error) => {
                return Err(ProgramError::Rodata(error));
            },
        };
        assemble_program(text, text_header.sh_addr, rodata, rodata_header.sh_addr)
    }
}

} // verus!
