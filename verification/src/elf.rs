//! Reading the object files of a program: the sections and symbols of the
//! file with the debug information, and the section headers of the
//! executable.

use crate::error::DebuggerError;
use crate::parser::ROData;
use crate::rodata::{
    collect_symbols, entries_match, find_rodata_base, find_rodata_section, header_views,
    headers_of, named_views, rodata_base, rodata_entries, rodata_section, row_views,
    section_headers_of, section_views, sorted_symbols, symbol_views, symbols_in, vm_address,
    NamedAddress, SectionHeader, SectionHeaderView, SectionInfo, SectionInfoView, SectionRow,
    SectionRowView, SymbolInfo, SymbolInfoView,
};
use object::{Object, ObjectSection, ObjectSymbol};
use solana_sbpf::aligned_memory::AlignedMemory;
use solana_sbpf::ebpf::HOST_ALIGN;
use solana_sbpf::elf_parser::Elf64;
use vstd::prelude::*;

verus! {

/// The sections that the `object` library finds in an object file with
/// these bytes, or the message of its parser.
pub uninterp spec fn object_section_table(data: Seq<u8>) -> Result<Seq<SectionInfoView>, Seq<char>>;

/// The symbols that the `object` library finds in an object file with these
/// bytes, or the message of its parser.
pub uninterp spec fn object_symbol_table(data: Seq<u8>) -> Result<Seq<SymbolInfoView>, Seq<char>>;

/// `object::File::parse` and `Object::sections`: the sections of the
/// object file in `data`, each with its name, index and address, or the
/// message of the parser. The library reads the bytes alone (its file
/// structures have alignment one, so the place of the buffer does not
/// matter): the result is `object_section_table` of the bytes. Nothing is
/// claimed of what that is.
#[verifier::external_body]
fn object_sections(data: &[u8]) -> (r: Result<Vec<SectionInfo>, String>)
    ensures
        match r {
            Ok(sections) => object_section_table(data@) == Ok::<
                Seq<SectionInfoView>,
                Seq<char>,
            >(section_views(sections@)),
            Err(message) => object_section_table(data@) == Err::<
                Seq<SectionInfoView>,
                Seq<char>,
            >(message@),
        },
{
    let file = object::File::parse(data).map_err(|e| e.to_string())?;
    Ok(
        file.sections().map(
            |s| SectionInfo {
                name: s.name().ok().map(String::from),
                index: s.index().0,
                address: s.address(),
            },
        ).collect(),
    )
}

/// `object::File::parse`, `Object::section_by_index` and
/// `ObjectSection::uncompressed_data`: the bytes of the section with index
/// `index` of the object file in `data`, or the message of the parser.
/// Nothing is claimed of the result: a compressed section is unpacked into
/// memory that has to be had first, so the same bytes need not give the
/// same result.
#[verifier::external_body]
fn object_section_data(data: &[u8], index: usize) -> (r: Result<Vec<u8>, String>) {
    let file = object::File::parse(data).map_err(|e| e.to_string())?;
    let section = file.section_by_index(object::SectionIndex(index)).map_err(|e| e.to_string())?;
    section.uncompressed_data().map(|d| d.into_owned()).map_err(|e| e.to_string())
}

/// `object::File::parse` and `Object::symbols`: the symbols of the object
/// file in `data`, each with its address, name and the index of its
/// section, or the message of the parser. The result is
/// `object_symbol_table` of the bytes. Nothing is claimed of what that is.
#[verifier::external_body]
fn object_symbols(data: &[u8]) -> (r: Result<Vec<SymbolInfo>, String>)
    ensures
        match r {
            Ok(symbols) => object_symbol_table(data@) == Ok::<Seq<SymbolInfoView>, Seq<char>>(
                symbol_views(symbols@),
            ),
            Err(message) => object_symbol_table(data@) == Err::<
                Seq<SymbolInfoView>,
                Seq<char>,
            >(message@),
        },
{
    let file = object::File::parse(data).map_err(|e| e.to_string())?;
    Ok(
        file.symbols().map(
            |s| SymbolInfo {
                address: s.address(),
                name: s.name().ok().map(String::from),
                section_index: s.section_index().map(|i| i.0),
            },
        ).collect(),
    )
}

/// The section header table that the parser of `solana_sbpf` finds in an
/// executable with these bytes on a machine whose addresses have
/// `word_bits` bits, each entry with its address and its name, or the
/// message of the parser.
pub uninterp spec fn elf_section_table(data: Seq<u8>, word_bits: u32) -> Result<
    Seq<SectionRowView>,
    Seq<char>,
>;

/// `AlignedMemory::from_slice`, `Elf64::parse`, `Elf64::section_header_table`
/// and `Elf64::section_name` of `solana_sbpf`: the section header table of
/// the executable in `data`, or the message of the parser. The parser tests
/// the alignment of what it reads, so the bytes are first copied to aligned
/// memory, as the loader of the library does; the result then depends on
/// the bytes and, because the parser narrows offsets to the width of an
/// address, on that width, and is `elf_section_table` of the two. Nothing
/// is claimed of what that is. `word_bits` is the width of an address on
/// this machine, and the copy needs a length that can be rounded up to the
/// alignment.
#[verifier::external_body]
fn elf_section_rows(data: &[u8], word_bits: u32) -> (r: Result<Vec<SectionRow>, String>)
    requires
        word_bits == usize::BITS,
        data@.len() <= isize::MAX - 15,
    ensures
        match r {
            Ok(rows) => elf_section_table(data@, word_bits) == Ok::<
                Seq<SectionRowView>,
                Seq<char>,
            >(row_views(rows@)),
            Err(message) => elf_section_table(data@, word_bits) == Err::<
                Seq<SectionRowView>,
                Seq<char>,
            >(message@),
        },
{
    let aligned = AlignedMemory::<HOST_ALIGN>::from_slice(data);
    let elf = Elf64::parse(aligned.as_slice()).map_err(|e| e.to_string())?;
    Ok(
        elf.section_header_table().iter().map(
            |h| SectionRow {
                name: elf.section_name(h.sh_name).map(|n| n.to_vec()).map_err(|e| e.to_string()),
                sh_addr: h.sh_addr,
            },
        ).collect(),
    )
}

/// `solana_sbpf::ebpf::MM_RODATA_START`, the address at which the
/// read-only data begin in the memory of the virtual machine: it is zero.
#[verifier::external_body]
pub(crate) fn mm_rodata_start() -> (start: u64)
    ensures
        start == 0,
{
    solana_sbpf::ebpf::MM_RODATA_START
}

/// `solana_sbpf::ebpf::INSN_SIZE`, the size of an instruction in bytes: it
/// is eight.
#[verifier::external_body]
pub(crate) fn insn_size() -> (size: u64)
    ensures
        size == 8,
{
    solana_sbpf::ebpf::INSN_SIZE as u64
}

/// The section headers of an executable with the bytes `data`: those that
/// its section header table gives. An executable too long to be copied to
/// aligned memory has none.
pub open spec fn executable_headers(data: Seq<u8>) -> Result<Seq<SectionHeaderView>, Seq<char>> {
    if data.len() > isize::MAX - 15 {
        Err("executable too large"@)
    } else {
        match elf_section_table(data, usize::BITS) {
            Err(message) => Err(message),
            Ok(rows) => headers_of(rows),
        }
    }
}

/// The section headers of the executable in `data`, each with the bytes of
/// its name and its address. The call fails with `ObjectError` and the
/// message of the parser if the executable cannot be parsed or a name
/// cannot be read.
pub fn read_section_headers(data: &[u8]) -> (r: Result<Vec<SectionHeader>, DebuggerError>)
    ensures
        match executable_headers(data@) {
            Ok(headers) => r matches Ok(found) && header_views(found@) == headers,
            Err(message) => r matches Err(DebuggerError::ObjectError(text)) && text@ == message,
        },
{
    if data.len() > (isize::MAX as usize) - 15 {
        let mut message: String = String::new();
        crate::text::push_str(&mut message, "executable too large");
        return Err(DebuggerError::ObjectError(message));
    }
    match elf_section_rows(data, usize::BITS) {
        Ok(rows) => section_headers_of(rows),
        Err(message) => Err(DebuggerError::ObjectError(message)),
    }
}

/// The symbols of the read-only data of an object file, ready to be placed
/// in the memory of the virtual machine.
pub struct RodataSymbols {
    /// The bytes of the `.rodata` section.
    pub data: Vec<u8>,
    /// The address of the section in the object file.
    pub section_address: u64,
    /// The symbols of the section in the order of their addresses.
    pub sorted: Vec<NamedAddress>,
}

/// Whether `symbols` are in the order of their addresses.
pub open spec fn in_address_order(symbols: Seq<NamedAddress>) -> bool {
    crate::rodata::ordered(named_views(symbols))
}

/// The symbols of the read-only data as a plain value.
pub struct RodataSymbolsView {
    pub data: Seq<u8>,
    pub section_address: u64,
    pub sorted: Seq<(u64, Seq<char>)>,
}

impl View for RodataSymbols {
    type V = RodataSymbolsView;

    open spec fn view(&self) -> RodataSymbolsView {
        RodataSymbolsView {
            data: self.data@,
            section_address: self.section_address,
            sorted: named_views(self.sorted@),
        }
    }
}

/// The symbols of the read-only data of an object file with the bytes
/// `debug`, where reading the bytes of its section gave `contents`: none if
/// the file has no section named `.rodata`; otherwise the bytes and the
/// address of the first such section, and the symbols that lie in it in the
/// order of their addresses. The error is the message of the parser: for
/// the sections, else for the bytes of the section, else for the symbols.
pub open spec fn rodata_symbols_of(debug: Seq<u8>, contents: Result<Seq<u8>, Seq<char>>) -> Result<
    Option<RodataSymbolsView>,
    Seq<char>,
> {
    match object_section_table(debug) {
        Err(message) => Err(message),
        Ok(sections) => match rodata_section(sections) {
            None => Ok(None),
            Some(i) => match contents {
                Err(message) => Err(message),
                Ok(data) => match object_symbol_table(debug) {
                    Err(message) => Err(message),
                    Ok(symbols) => Ok(
                        Some(
                            RodataSymbolsView {
                                data,
                                section_address: sections[i].address,
                                sorted: sorted_symbols(symbols_in(symbols, sections[i].index)),
                            },
                        ),
                    ),
                },
            },
        },
    }
}

/// Whether `r` is what `read_rodata_symbols` returns for an object file
/// with the bytes `debug` when reading the bytes of its section gave
/// `contents`.
pub open spec fn is_rodata_symbols_result(
    debug: Seq<u8>,
    contents: Result<Seq<u8>, Seq<char>>,
    r: Result<Option<RodataSymbols>, DebuggerError>,
) -> bool {
    match rodata_symbols_of(debug, contents) {
        Ok(Some(symbols)) => r matches Ok(Some(found)) && found@ == symbols,
        Ok(None) => r matches Ok(None),
        Err(message) => r matches Err(DebuggerError::ObjectError(text)) && text@ == message,
    }
}

/// The symbols of the read-only data of the object file in `debug_data`:
/// `None` if the file has no section named `.rodata`. The call fails with
/// `ObjectError` and the message of the parser if the file, the section or
/// the symbols cannot be read. What the bytes of the section are, and
/// whether they can be read, is for the parser to say.
pub fn read_rodata_symbols(debug_data: &[u8]) -> (r: Result<Option<RodataSymbols>, DebuggerError>)
    ensures
        exists|contents: Result<Seq<u8>, Seq<char>>| #[trigger]
            is_rodata_symbols_result(debug_data@, contents, r),
        r matches Ok(Some(found)) ==> in_address_order(found.sorted@),
{
    let ghost unread = Err::<Seq<u8>, Seq<char>>(Seq::empty());
    let sections: Vec<SectionInfo> = match object_sections(debug_data) {
        Ok(sections) => sections,
        Err(message) => {
            let r = Err(DebuggerError::ObjectError(message));
            assert(is_rodata_symbols_result(debug_data@, unread, r));
            return r;
        },
    };
    let position: usize = match find_rodata_section(sections.as_slice()) {
        Some(position) => position,
        None => {
            let r = Ok(None);
            assert(is_rodata_symbols_result(debug_data@, unread, r));
            return r;
        },
    };
    let section: &SectionInfo = &sections[position];
    let data: Vec<u8> = match object_section_data(debug_data, section.index) {
        Ok(data) => data,
        Err(message) => {
            let r = Err(DebuggerError::ObjectError(message));
            assert(is_rodata_symbols_result(
                debug_data@,
                Err::<Seq<u8>, Seq<char>>(message@),
                r,
            ));
            return r;
        },
    };
    let symbols: Vec<SymbolInfo> = match object_symbols(debug_data) {
        Ok(symbols) => symbols,
        Err(message) => {
            let r = Err(DebuggerError::ObjectError(message));
            assert(is_rodata_symbols_result(debug_data@, Ok::<Seq<u8>, Seq<char>>(data@), r));
            return r;
        },
    };
    let sorted: Vec<NamedAddress> = collect_symbols(symbols.as_slice(), section.index);
    proof {
        crate::rodata::lemma_sorted_symbols(symbols_in(symbol_views(symbols@), section.index));
    }
    let r = Ok(Some(RodataSymbols { data, section_address: section.address, sorted }));
    assert(is_rodata_symbols_result(debug_data@, Ok::<Seq<u8>, Seq<char>>(data@), r));
    r
}

/// Places the symbols of the read-only data in the memory of the virtual
/// machine: each at the start of the read-only region, plus the address
/// that the section headers of the executable in `file_data` give the
/// section, plus its own address. The call fails with `ObjectError`: with
/// the message of the parser if the executable cannot be read, and
/// otherwise exactly when the address of a symbol does not fit in 64 bits.
pub fn place_rodata(symbols: &RodataSymbols, file_data: &[u8]) -> (r: Result<
    Vec<ROData>,
    DebuggerError,
>)
    ensures
        match executable_headers(file_data@) {
            Err(message) => r matches Err(DebuggerError::ObjectError(text)) && text@ == message,
            Ok(headers) => match r {
                Ok(entries) => entries_match(
                    entries@,
                    symbols.data@,
                    symbols.section_address,
                    named_views(symbols.sorted@),
                    0,
                    rodata_base(headers),
                ),
                Err(e) => e is ObjectError && exists|i: int|
                    0 <= i < symbols.sorted@.len() && vm_address(
                        0,
                        rodata_base(headers),
                        (#[trigger] symbols.sorted@[i]).address,
                    ) > u64::MAX,
            },
        },
{
    let headers: Vec<SectionHeader> = match read_section_headers(file_data) {
        Ok(headers) => headers,
        Err(e) => {
            return Err(e);
        },
    };
    let base: u64 = find_rodata_base(headers.as_slice());
    rodata_entries(
        symbols.data.as_slice(),
        symbols.section_address,
        symbols.sorted.as_slice(),
        mm_rodata_start(),
        base,
    )
}

/// Whether `entries` are the read-only data of the symbols `sorted` of a
/// section at `section_address`, over some bytes of the section, placed at
/// the address `base` of the executable.
pub open spec fn placed(
    entries: Seq<ROData>,
    section_address: u64,
    sorted: Seq<(u64, Seq<char>)>,
    base: u64,
) -> bool {
    exists|data: Seq<u8>| #[trigger] entries_match(entries, data, section_address, sorted, 0, base)
}

/// The symbols of the read-only data of a program for display.
/// `debug_data` holds the object file with the symbols, `file_data` the
/// executable. A program without a `.rodata` section has no symbols, and
/// its executable is not looked at. Otherwise there is one entry for each
/// symbol of the first such section, in the order of the addresses, over
/// the bytes that the parser reads from the section, and at the address
/// that the last header named `.rodata` of the executable gives. The call
/// fails with `ObjectError`: with the message of the parser if the sections
/// cannot be read, and whenever the bytes of the section, the symbols or
/// the executable cannot be read or an address does not fit in 64 bits.
pub fn parse_rodata(file_data: &[u8], debug_data: &[u8]) -> (r: Result<Vec<ROData>, DebuggerError>)
    ensures
        match object_section_table(debug_data@) {
            Err(message) => r matches Err(DebuggerError::ObjectError(text)) && text@ == message,
            Ok(sections) => match rodata_section(sections) {
                None => r matches Ok(entries) && entries@.len() == 0,
                Some(i) => match r {
                    Ok(entries) => object_symbol_table(debug_data@) matches Ok(symbols)
                        && executable_headers(file_data@) matches Ok(headers) && placed(
                        entries@,
                        sections[i].address,
                        sorted_symbols(symbols_in(symbols, sections[i].index)),
                        rodata_base(headers),
                    ),
                    Err(e) => e is ObjectError,
                },
            },
        },
{
    let read = read_rodata_symbols(debug_data);
    proof {
        let contents = choose|contents: Result<Seq<u8>, Seq<char>>| #[trigger]
            is_rodata_symbols_result(debug_data@, contents, read);
        assert(is_rodata_symbols_result(debug_data@, contents, read));
    }
    let symbols: RodataSymbols = match read {
        Ok(Some(symbols)) => symbols,
        Ok(None) => {
            return Ok(Vec::new());
        },
        Err(e) => {
            return Err(e);
        },
    };
    place_rodata(&symbols, file_data)
}

} // verus!
