//! The read-only data of a program for display.
//!
//! The symbols of the `.rodata` section are put in the order of their
//! addresses. Each symbol owns the bytes from its address to the address of
//! the next symbol, the last one to the end of the section. The bytes are
//! shown as text if all of them are printable, in hexadecimal otherwise.

use crate::error::DebuggerError;
use crate::parser::ROData;
use crate::text::{digit_char, digit_to_char, push_str};
use vstd::prelude::*;

verus! {

/// A section of an object file: its name, if it has a readable one, its
/// index and its address.
#[derive(Debug, Clone, PartialEq, Eq)]
pub struct SectionInfo {
    pub name: Option<String>,
    pub index: usize,
    pub address: u64,
}

/// A symbol of an object file: its address, its name, if it has a readable
/// one, and the index of its section, if it lies in one.
#[derive(Debug, Clone, PartialEq, Eq)]
pub struct SymbolInfo {
    pub address: u64,
    pub name: Option<String>,
    pub section_index: Option<usize>,
}

/// An entry of the section header table of an executable: the bytes of its
/// name and its address.
#[derive(Debug, Clone, PartialEq, Eq)]
pub struct SectionHeader {
    pub name: Vec<u8>,
    pub sh_addr: u64,
}

/// A symbol of the read-only data: its address in the object file and its
/// name.
#[derive(Debug, Clone, PartialEq, Eq)]
pub struct NamedAddress {
    pub address: u64,
    pub name: String,
}

/// A section as a plain value.
pub struct SectionInfoView {
    pub name: Option<Seq<char>>,
    pub index: usize,
    pub address: u64,
}

impl View for SectionInfo {
    type V = SectionInfoView;

    open spec fn view(&self) -> SectionInfoView {
        SectionInfoView {
            name: match self.name {
                Some(n) => Some(n@),
                None => None,
            },
            index: self.index,
            address: self.address,
        }
    }
}

/// A symbol as a plain value.
pub struct SymbolInfoView {
    pub address: u64,
    pub name: Option<Seq<char>>,
    pub section_index: Option<usize>,
}

impl View for SymbolInfo {
    type V = SymbolInfoView;

    open spec fn view(&self) -> SymbolInfoView {
        SymbolInfoView {
            address: self.address,
            name: match self.name {
                Some(n) => Some(n@),
                None => None,
            },
            section_index: self.section_index,
        }
    }
}

/// A section header as a plain value.
pub struct SectionHeaderView {
    pub name: Seq<u8>,
    pub sh_addr: u64,
}

impl View for SectionHeader {
    type V = SectionHeaderView;

    open spec fn view(&self) -> SectionHeaderView {
        SectionHeaderView { name: self.name@, sh_addr: self.sh_addr }
    }
}

/// The views of a list of section headers.
pub open spec fn header_views(headers: Seq<SectionHeader>) -> Seq<SectionHeaderView> {
    Seq::new(headers.len(), |i: int| headers[i]@)
}

/// An entry of the section header table as the parser gives it: its
/// address, and the bytes of its name or the message that says why the
/// name cannot be read.
#[derive(Debug, PartialEq, Eq)]
pub struct SectionRow {
    pub name: Result<Vec<u8>, String>,
    pub sh_addr: u64,
}

/// An entry of the section header table as a plain value.
pub struct SectionRowView {
    pub name: Result<Seq<u8>, Seq<char>>,
    pub sh_addr: u64,
}

impl View for SectionRow {
    type V = SectionRowView;

    open spec fn view(&self) -> SectionRowView {
        SectionRowView {
            name: match self.name {
                Ok(n) => Ok(n@),
                Err(m) => Err(m@),
            },
            sh_addr: self.sh_addr,
        }
    }
}

/// The views of a list of entries of the section header table.
pub open spec fn row_views(rows: Seq<SectionRow>) -> Seq<SectionRowView> {
    Seq::new(rows.len(), |i: int| rows[i]@)
}

/// The section headers that a section header table gives: one for each
/// entry, in order, with its name and address. The first entry whose name
/// cannot be read makes the whole table fail with its message.
pub open spec fn headers_of(rows: Seq<SectionRowView>) -> Result<Seq<SectionHeaderView>, Seq<char>>
    decreases rows.len(),
{
    if rows.len() == 0 {
        Ok(Seq::empty())
    } else {
        match headers_of(rows.drop_last()) {
            Err(message) => Err(message),
            Ok(headers) => match rows.last().name {
                Ok(name) => Ok(headers.push(SectionHeaderView { name, sh_addr: rows.last().sh_addr })),
                Err(message) => Err(message),
            },
        }
    }
}

/// The views of a list of sections.
pub open spec fn section_views(sections: Seq<SectionInfo>) -> Seq<SectionInfoView> {
    Seq::new(sections.len(), |i: int| sections[i]@)
}

/// The views of a list of symbols.
pub open spec fn symbol_views(symbols: Seq<SymbolInfo>) -> Seq<SymbolInfoView> {
    Seq::new(symbols.len(), |i: int| symbols[i]@)
}

/// Whether `section` is named `.rodata`.
pub open spec fn is_rodata(section: SectionInfoView) -> bool {
    section.name == Some(".rodata"@)
}

/// The position of the first section named `.rodata`.
pub open spec fn rodata_section(sections: Seq<SectionInfoView>) -> Option<int>
    decreases sections.len(),
{
    if sections.len() == 0 {
        None
    } else {
        match rodata_section(sections.drop_last()) {
            Some(i) => Some(i),
            None => if is_rodata(sections.last()) {
                Some(sections.len() - 1)
            } else {
                None
            },
        }
    }
}

/// The name shown for a symbol: its own, or `<unnamed>`.
pub open spec fn shown_name(name: Option<Seq<char>>) -> Seq<char> {
    match name {
        Some(n) => n,
        None => "<unnamed>"@,
    }
}

/// The symbols that lie in the section with index `index`, in order, each
/// as its address and the name shown for it.
pub open spec fn symbols_in(symbols: Seq<SymbolInfoView>, index: usize) -> Seq<(u64, Seq<char>)>
    decreases symbols.len(),
{
    if symbols.len() == 0 {
        Seq::empty()
    } else {
        let before = symbols_in(symbols.drop_last(), index);
        if symbols.last().section_index == Some(index) {
            before.push((symbols.last().address, shown_name(symbols.last().name)))
        } else {
            before
        }
    }
}

/// Where a symbol with address `address` goes into a list that is ordered
/// by address: behind every symbol whose address is not greater.
pub open spec fn insert_position(sorted: Seq<(u64, Seq<char>)>, address: u64) -> int
    decreases sorted.len(),
{
    if sorted.len() == 0 {
        0
    } else if sorted.last().0 <= address {
        sorted.len() as int
    } else {
        insert_position(sorted.drop_last(), address)
    }
}

/// The symbols in the order of their addresses; symbols with the same
/// address keep their order.
pub open spec fn sorted_symbols(symbols: Seq<(u64, Seq<char>)>) -> Seq<(u64, Seq<char>)>
    decreases symbols.len(),
{
    if symbols.len() == 0 {
        Seq::empty()
    } else {
        let before = sorted_symbols(symbols.drop_last());
        before.insert(insert_position(before, symbols.last().0), symbols.last())
    }
}

/// Whether the addresses of `symbols` never fall.
pub open spec fn ordered(symbols: Seq<(u64, Seq<char>)>) -> bool {
    forall|i: int, j: int| 0 <= i <= j < symbols.len() ==> symbols[i].0 <= symbols[j].0
}

proof fn lemma_insert_position(sorted: Seq<(u64, Seq<char>)>, address: u64)
    requires
        ordered(sorted),
    ensures
        0 <= insert_position(sorted, address) <= sorted.len(),
        forall|i: int| 0 <= i < insert_position(sorted, address) ==> sorted[i].0 <= address,
        forall|i: int|
            insert_position(sorted, address) <= i < sorted.len() ==> sorted[i].0 > address,
    decreases sorted.len(),
{
    if sorted.len() > 0 && sorted.last().0 > address {
        let rest = sorted.drop_last();
        assert forall|i: int, j: int| 0 <= i <= j < rest.len() implies rest[i].0 <= rest[j].0 by {
            assert(rest[i] == sorted[i] && rest[j] == sorted[j]);
        }
        lemma_insert_position(rest, address);
        assert forall|i: int| 0 <= i < insert_position(sorted, address) implies sorted[i].0
            <= address by {
            assert(rest[i] == sorted[i]);
        }
        assert forall|i: int|
            insert_position(sorted, address) <= i < sorted.len() implies sorted[i].0 > address by {
            if i < rest.len() {
                assert(rest[i] == sorted[i]);
            }
        }
    }
}

/// The sorted symbols are the given symbols in another order, and their
/// addresses never fall.
#[verifier::rlimit(50)]
pub proof fn lemma_sorted_symbols(symbols: Seq<(u64, Seq<char>)>)
    ensures
        ordered(sorted_symbols(symbols)),
        sorted_symbols(symbols).len() == symbols.len(),
        sorted_symbols(symbols).to_multiset() == symbols.to_multiset(),
    decreases symbols.len(),
{
    broadcast use vstd::seq_lib::group_to_multiset_ensures;

    if symbols.len() > 0 {
        let rest = symbols.drop_last();
        let x = symbols.last();
        lemma_sorted_symbols(rest);
        let before = sorted_symbols(rest);
        lemma_insert_position(before, x.0);
        let p = insert_position(before, x.0);
        let after = before.insert(p, x);
        assert forall|i: int, j: int| 0 <= i <= j < after.len() implies after[i].0
            <= after[j].0 by {
            if i < p && j > p {
                assert(after[i] == before[i] && after[j] == before[j - 1]);
            } else if i < p && j < p {
                assert(after[i] == before[i] && after[j] == before[j]);
            } else if i > p {
                assert(after[i] == before[i - 1] && after[j] == before[j - 1]);
            }
        }
        before.to_multiset_ensures();
        assert(rest.push(x) =~= symbols);
        rest.to_multiset_ensures();
        assert(after.to_multiset() =~= before.to_multiset().insert(x));
    }
}

/// The bytes `.rodata` as a section name.
pub open spec fn rodata_name() -> Seq<u8> {
    seq![0x2eu8, 0x72u8, 0x6fu8, 0x64u8, 0x61u8, 0x74u8, 0x61u8]
}

/// The address of the read-only data in the executable: that of the last
/// section header named `.rodata`, zero if there is none.
pub open spec fn rodata_base(headers: Seq<SectionHeaderView>) -> u64
    decreases headers.len(),
{
    if headers.len() == 0 {
        0
    } else if headers.last().name == rodata_name() {
        headers.last().sh_addr
    } else {
        rodata_base(headers.drop_last())
    }
}

/// The bytes of symbol `i` of `sorted`: from its address to the address of
/// the next symbol, or to the end of the section for the last symbol, as
/// far as `data`, the bytes of the section, reaches. `section_address` is
/// the address of the first byte of the section; where it is zero the
/// address of a symbol is its offset in the section. A symbol that lies
/// outside the section has no bytes.
pub open spec fn symbol_content(
    data: Seq<u8>,
    section_address: u64,
    sorted: Seq<(u64, Seq<char>)>,
    i: int,
) -> Seq<u8> {
    let address = sorted[i].0;
    let offset = if section_address == 0 {
        address as int
    } else {
        address - section_address
    };
    if 0 <= offset < data.len() {
        let end = if i + 1 < sorted.len() {
            if offset + (sorted[i + 1].0 - address) < data.len() {
                offset + (sorted[i + 1].0 - address)
            } else {
                data.len() as int
            }
        } else {
            data.len() as int
        };
        if offset <= end {
            data.subrange(offset, end)
        } else {
            Seq::empty()
        }
    } else {
        Seq::empty()
    }
}

/// Whether a byte is a printable ASCII character or a space.
pub open spec fn printable(b: u8) -> bool {
    0x20 <= b <= 0x7e
}

/// The bytes in hexadecimal: two lowercase digits for each, with a space
/// between neighbours.
pub open spec fn spaced_hex(content: Seq<u8>) -> Seq<char>
    decreases content.len(),
{
    if content.len() == 0 {
        Seq::empty()
    } else {
        let digits = seq![
            digit_char((content.last() / 16) as nat),
            digit_char((content.last() % 16) as nat),
        ];
        if content.len() == 1 {
            digits
        } else {
            spaced_hex(content.drop_last()) + seq![' '] + digits
        }
    }
}

/// The content of a symbol for display: its characters if every byte is
/// printable, its bytes in hexadecimal otherwise.
pub open spec fn content_text(content: Seq<u8>) -> Seq<char> {
    if forall|i: int| 0 <= i < content.len() ==> printable(#[trigger] content[i]) {
        Seq::new(content.len(), |i: int| content[i] as char)
    } else {
        spaced_hex(content)
    }
}

/// The address of a symbol in the memory of the virtual machine: the
/// start of the read-only region, the address of the section in the
/// executable, and the address of the symbol.
pub open spec fn vm_address(region_start: u64, base: u64, address: u64) -> int {
    region_start + base + address
}

/// Entry `i` of the read-only data.
pub open spec fn rodata_entry_matches(
    entry: ROData,
    data: Seq<u8>,
    section_address: u64,
    sorted: Seq<(u64, Seq<char>)>,
    region_start: u64,
    base: u64,
    i: int,
) -> bool {
    &&& entry.name@ == sorted[i].1
    &&& entry.address == vm_address(region_start, base, sorted[i].0)
    &&& entry.content@ == content_text(symbol_content(data, section_address, sorted, i))
}

/// Whether `entries` are the read-only data of the symbols `sorted`, one
/// entry for each symbol in order.
pub open spec fn entries_match(
    entries: Seq<ROData>,
    data: Seq<u8>,
    section_address: u64,
    sorted: Seq<(u64, Seq<char>)>,
    region_start: u64,
    base: u64,
) -> bool {
    &&& entries.len() == sorted.len()
    &&& forall|i: int|
        0 <= i < sorted.len() ==> rodata_entry_matches(
            #[trigger] entries[i],
            data,
            section_address,
            sorted,
            region_start,
            base,
            i,
        )
}

/// The views of a list of symbols.
pub open spec fn named_views(symbols: Seq<NamedAddress>) -> Seq<(u64, Seq<char>)> {
    Seq::new(symbols.len(), |i: int| (symbols[i].address, symbols[i].name@))
}

/// The position of the first section named `.rodata`.
pub fn find_rodata_section(sections: &[SectionInfo]) -> (r: Option<usize>)
    ensures
        match r {
            Some(i) => i < sections@.len() && rodata_section(section_views(sections@)) == Some(
                i as int,
            ),
            None => rodata_section(section_views(sections@)) is None,
        },
{
    let ghost views = section_views(sections@);
    let mut i: usize = 0;
    while i < sections.len()
        invariant
            i <= sections.len(),
            views == section_views(sections@),
            rodata_section(views.subrange(0, i as int)) is None,
        decreases sections.len() - i,
    {
        proof {
            assert(views.subrange(0, i + 1).drop_last() =~= views.subrange(0, i as int));
            assert(views.subrange(0, i + 1).last() == sections@[i as int]@);
        }
        let found: bool = match &sections[i].name {
            Some(n) => crate::text::str_equal(n.as_str(), ".rodata"),
            None => false,
        };
        if found {
            proof {
                assert(is_rodata(views[i as int]));
                lemma_rodata_section_found(views, i as int, views.len() as int);
                assert(views.subrange(0, views.len() as int) =~= views);
            }
            return Some(i);
        }
        i = i + 1;
    }
    assert(views.subrange(0, i as int) =~= views);
    None
}

proof fn lemma_rodata_section_found(sections: Seq<SectionInfoView>, i: int, n: int)
    requires
        0 <= i < n <= sections.len(),
        rodata_section(sections.subrange(0, i)) is None,
        is_rodata(sections[i]),
    ensures
        rodata_section(sections.subrange(0, n)) == Some(i),
    decreases n,
{
    let upto = sections.subrange(0, n);
    assert(upto.drop_last() =~= sections.subrange(0, n - 1));
    if n > i + 1 {
        lemma_rodata_section_found(sections, i, n - 1);
    }
}

/// The symbols that lie in the section with index `index`, in the order of
/// their addresses.
#[verifier::rlimit(50)]
pub fn collect_symbols(symbols: &[SymbolInfo], index: usize) -> (sorted: Vec<NamedAddress>)
    ensures
        named_views(sorted@) == sorted_symbols(symbols_in(symbol_views(symbols@), index)),
{
    let ghost views = symbol_views(symbols@);
    let mut sorted: Vec<NamedAddress> = Vec::new();
    let mut i: usize = 0;
    assert(named_views(sorted@) =~= Seq::<(u64, Seq<char>)>::empty());
    while i < symbols.len()
        invariant
            i <= symbols.len(),
            views == symbol_views(symbols@),
            named_views(sorted@) == sorted_symbols(symbols_in(views.subrange(0, i as int), index)),
        decreases symbols.len() - i,
    {
        proof {
            assert(views.subrange(0, i + 1).drop_last() =~= views.subrange(0, i as int));
            assert(views.subrange(0, i + 1).last() == symbols@[i as int]@);
        }
        let symbol: &SymbolInfo = &symbols[i];
        let inside: bool = match symbol.section_index {
            Some(s) => s == index,
            None => false,
        };
        if inside {
            let mut name: String = String::new();
            match &symbol.name {
                Some(n) => {
                    push_str(&mut name, n.as_str());
                },
                None => {
                    push_str(&mut name, "<unnamed>");
                },
            }
            assert(name@ =~= shown_name(symbol@.name));
            let ghost before = named_views(sorted@);
            let mut p: usize = sorted.len();
            assert(before.subrange(0, sorted.len() as int) =~= before);
            while p > 0 && sorted[p - 1].address > symbol.address
                invariant
                    p <= sorted.len(),
                    before == named_views(sorted@),
                    insert_position(before, symbol.address) == insert_position(
                        before.subrange(0, p as int),
                        symbol.address,
                    ),
                decreases p,
            {
                proof {
                    let prefix = before.subrange(0, p as int);
                    assert(prefix.drop_last() =~= before.subrange(0, p - 1));
                    assert(prefix.last() == before[p - 1]);
                    assert(before[p - 1].0 == sorted@[p - 1].address);
                }
                p = p - 1;
            }
            proof {
                let prefix = before.subrange(0, p as int);
                if p > 0 {
                    assert(prefix.last() == before[p - 1]);
                    assert(before[p - 1].0 == sorted@[p - 1].address);
                }
                assert(insert_position(prefix, symbol.address) == p);
            }
            let entry = NamedAddress { address: symbol.address, name };
            sorted.insert(p, entry);
            assert(named_views(sorted@) =~= before.insert(p as int, (symbol.address, name@)));
            proof {
                let earlier = symbols_in(views.subrange(0, i as int), index);
                let now = symbols_in(views.subrange(0, i + 1), index);
                assert(now == earlier.push((symbol.address, name@)));
                assert(now.drop_last() =~= earlier);
                assert(now.last() == (symbol.address, name@));
            }
        }
        i = i + 1;
    }
    assert(views.subrange(0, i as int) =~= views);
    sorted
}

/// Whether `name` holds the bytes `.rodata`.
fn names_rodata(name: &[u8]) -> (b: bool)
    ensures
        b == (name@ == rodata_name()),
{
    if name.len() != 7 {
        return false;
    }
    let b: bool = name[0] == 0x2e && name[1] == 0x72 && name[2] == 0x6f && name[3] == 0x64
        && name[4] == 0x61 && name[5] == 0x74 && name[6] == 0x61;
    if b {
        assert(name@ =~= rodata_name());
    } else {
        assert(name@[0] != rodata_name()[0] || name@[1] != rodata_name()[1] || name@[2]
            != rodata_name()[2] || name@[3] != rodata_name()[3] || name@[4] != rodata_name()[4]
            || name@[5] != rodata_name()[5] || name@[6] != rodata_name()[6]);
    }
    b
}

/// The address of the read-only data in the executable.
pub fn find_rodata_base(headers: &[SectionHeader]) -> (base: u64)
    ensures
        base == rodata_base(header_views(headers@)),
{
    let ghost views = header_views(headers@);
    let mut base: u64 = 0;
    let mut i: usize = 0;
    while i < headers.len()
        invariant
            i <= headers.len(),
            views == header_views(headers@),
            base == rodata_base(views.subrange(0, i as int)),
        decreases headers.len() - i,
    {
        proof {
            assert(views.subrange(0, i + 1).drop_last() =~= views.subrange(0, i as int));
            assert(views.subrange(0, i + 1).last() == headers@[i as int]@);
        }
        if names_rodata(headers[i].name.as_slice()) {
            base = headers[i].sh_addr;
        }
        i = i + 1;
    }
    assert(views.subrange(0, i as int) =~= views);
    base
}

/// The section headers that a section header table gives: one for each
/// entry, in order. The call fails with `ObjectError` and the message of
/// the first entry whose name cannot be read.
pub fn section_headers_of(rows: Vec<SectionRow>) -> (r: Result<Vec<SectionHeader>, DebuggerError>)
    ensures
        match headers_of(row_views(rows@)) {
            Ok(headers) => r matches Ok(found) && header_views(found@) == headers,
            Err(message) => r matches Err(DebuggerError::ObjectError(text)) && text@ == message,
        },
{
    let ghost views = row_views(rows@);
    let mut headers: Vec<SectionHeader> = Vec::new();
    assert(header_views(headers@) =~= Seq::<SectionHeaderView>::empty());
    for row in it: rows
        invariant
            it.seq() == rows@,
            views == row_views(rows@),
            headers_of(views.subrange(0, it.index() as int)) == Ok::<
                Seq<SectionHeaderView>,
                Seq<char>,
            >(header_views(headers@)),
    {
        let ghost before = header_views(headers@);
        proof {
            let next = views.subrange(0, it.index() + 1);
            assert(next.drop_last() =~= views.subrange(0, it.index() as int));
            assert(next.last() == row@);
        }
        match row.name {
            Ok(name) => {
                headers.push(SectionHeader { name, sh_addr: row.sh_addr });
                assert(header_views(headers@) =~= before.push(
                    SectionHeaderView { name: name@, sh_addr: row.sh_addr },
                ));
            },
            Err(message) => {
                proof {
                    lemma_headers_fail(views, it.index() as int);
                }
                return Err(DebuggerError::ObjectError(message));
            },
        }
    }
    assert(views.subrange(0, views.len() as int) =~= views);
    Ok(headers)
}

/// A table whose entries up to `i` give headers and whose entry `i` has no
/// readable name fails with the message of entry `i`.
proof fn lemma_headers_fail(rows: Seq<SectionRowView>, i: int)
    requires
        0 <= i < rows.len(),
        headers_of(rows.subrange(0, i)) is Ok,
        rows[i].name is Err,
    ensures
        headers_of(rows) == Err::<Seq<SectionHeaderView>, Seq<char>>(rows[i].name->Err_0),
    decreases rows.len(),
{
    if rows.len() == i + 1 {
        assert(rows.drop_last() =~= rows.subrange(0, i));
    } else {
        let shorter = rows.drop_last();
        assert(shorter.subrange(0, i) =~= rows.subrange(0, i));
        lemma_headers_fail(shorter, i);
    }
}

/// The bytes `data[from..to]` for display.
#[verifier::rlimit(50)]
pub fn render_content(data: &[u8], from: usize, to: usize) -> (text: String)
    requires
        from <= to <= data.len(),
    ensures
        text@ == content_text(data@.subrange(from as int, to as int)),
{
    let ghost content = data@.subrange(from as int, to as int);
    let mut all: bool = true;
    let mut i: usize = from;
    while i < to
        invariant
            from <= i <= to <= data.len(),
            all == (forall|k: int| from <= k < i ==> printable(#[trigger] data@[k])),
        decreases to - i,
    {
        if !(0x20 <= data[i] && data[i] <= 0x7e) {
            all = false;
        }
        i = i + 1;
    }
    let mut text: String = String::new();
    if all {
        assert forall|k: int| 0 <= k < content.len() implies printable(#[trigger] content[k]) by {
            assert(content[k] == data@[from + k]);
        }
        let mut j: usize = from;
        while j < to
            invariant
                from <= j <= to <= data.len(),
                text@ == Seq::new((j - from) as nat, |k: int| data@[from + k] as char),
            decreases to - j,
        {
            text.push(data[j] as char);
            j = j + 1;
            assert(text@ =~= Seq::new((j - from) as nat, |k: int| data@[from + k] as char));
        }
        assert(text@ =~= Seq::new(content.len(), |k: int| content[k] as char));
    } else {
        proof {
            let k = choose|k: int| from <= k < to && !printable(#[trigger] data@[k]);
            assert(!printable(content[k - from]));
        }
        let mut j: usize = from;
        while j < to
            invariant
                from <= j <= to <= data.len(),
                text@ == spaced_hex(data@.subrange(from as int, j as int)),
            decreases to - j,
        {
            proof {
                assert(data@.subrange(from as int, j + 1).drop_last() =~= data@.subrange(
                    from as int,
                    j as int,
                ));
            }
            if j > from {
                text.push(' ');
            }
            text.push(digit_to_char(data[j] / 16));
            text.push(digit_to_char(data[j] % 16));
            j = j + 1;
            assert(text@ =~= spaced_hex(data@.subrange(from as int, j as int)));
        }
    }
    text
}

/// The range of the bytes of symbol `i` in `data`.
#[verifier::rlimit(50)]
fn content_range(data: &[u8], section_address: u64, sorted: &[NamedAddress], i: usize) -> (r: (
    usize,
    usize,
))
    requires
        i < sorted.len(),
    ensures
        r.0 <= r.1 <= data.len(),
        data@.subrange(r.0 as int, r.1 as int) == symbol_content(
            data@,
            section_address,
            named_views(sorted@),
            i as int,
        ),
{
    let address: u64 = sorted[i].address;
    let inside: bool = section_address == 0 || address >= section_address;
    if !inside {
        assert(data@.subrange(0, 0) =~= Seq::<u8>::empty());
        return (0, 0);
    }
    let offset: u64 = if section_address == 0 {
        address
    } else {
        address - section_address
    };
    if offset >= data.len() as u64 {
        assert(data@.subrange(0, 0) =~= Seq::<u8>::empty());
        return (0, 0);
    }
    let from: usize = offset as usize;
    let to: usize = if i + 1 < sorted.len() {
        let next: u64 = sorted[i + 1].address;
        if next < address {
            assert(data@.subrange(0, 0) =~= Seq::<u8>::empty());
            return (0, 0);
        }
        let size: u64 = next - address;
        let available: u64 = (data.len() - from) as u64;
        if size < available {
            from + size as usize
        } else {
            data.len()
        }
    } else {
        data.len()
    };
    (from, to)
}

/// The symbols of the read-only data for display. `data` holds the bytes of
/// the `.rodata` section and `section_address` its address in the object
/// file, `sorted` the symbols of the section in the order of their
/// addresses, `region_start` the start of the read-only region in the
/// memory of the virtual machine and `base` the address of the section in
/// the executable. The call fails if the address of a symbol in the
/// virtual machine does not fit in 64 bits.
#[verifier::rlimit(50)]
pub fn rodata_entries(
    data: &[u8],
    section_address: u64,
    sorted: &[NamedAddress],
    region_start: u64,
    base: u64,
) -> (r: Result<Vec<ROData>, DebuggerError>)
    ensures
        match r {
            Ok(entries) => entries_match(
                entries@,
                data@,
                section_address,
                named_views(sorted@),
                region_start,
                base,
            ),
            Err(e) => e is ObjectError && exists|i: int|
                0 <= i < sorted@.len() && vm_address(
                    region_start,
                    base,
                    (#[trigger] sorted@[i]).address,
                ) > u64::MAX,
        },
{
    let mut entries: Vec<ROData> = Vec::new();
    let mut i: usize = 0;
    while i < sorted.len()
        invariant
            i <= sorted.len(),
            entries@.len() == i,
            forall|k: int|
                0 <= k < i ==> rodata_entry_matches(
                    #[trigger] entries@[k],
                    data@,
                    section_address,
                    named_views(sorted@),
                    region_start,
                    base,
                    k,
                ),
        decreases sorted.len() - i,
    {
        let symbol: &NamedAddress = &sorted[i];
        let fits: bool = base <= u64::MAX - region_start && symbol.address <= u64::MAX
            - region_start - base;
        if !fits {
            let mut message: String = String::new();
            push_str(&mut message, "symbol address out of range");
            return Err(DebuggerError::ObjectError(message));
        }
        let range: (usize, usize) = content_range(data, section_address, sorted, i);
        let content: String = render_content(data, range.0, range.1);
        let mut name: String = String::new();
        push_str(&mut name, symbol.name.as_str());
        assert(name@ =~= symbol.name@);
        entries.push(ROData { name, address: region_start + base + symbol.address, content });
        i = i + 1;
    }
    Ok(entries)
}

} // verus!
