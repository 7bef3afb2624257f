//! The line map: which source line each program counter belongs to, and
//! which program counters each line covers.
//!
//! A map is filled row by row from the line-number table of the program's
//! debug information and is not changed afterwards.

use crate::text::str_equal;
use std::collections::HashMap;
use vstd::prelude::*;
use vstd::std_specs::iter::IteratorSpec;

verus! {

broadcast use vstd::std_specs::hash::group_hash_axioms;

/// A symbol of the read-only data section: its name, its address in the
/// memory of the virtual machine, and its content for display.
#[derive(Debug, Clone, PartialEq, Eq)]
pub struct ROData {
    pub name: String,
    pub address: u64,
    pub content: String,
}

/// A place in the source: file, line (0 when unknown) and column (0 for the
/// left edge), with the address of the instruction it was recorded for.
#[derive(Debug, Clone, PartialEq, Eq)]
pub struct SourceLocation {
    pub file: String,
    pub line: u32,
    pub column: u32,
    pub address: u64,
}

/// A source location as a plain value.
pub struct SourceLocationView {
    pub file: Seq<char>,
    pub line: u32,
    pub column: u32,
    pub address: u64,
}

impl View for SourceLocation {
    type V = SourceLocationView;

    open spec fn view(&self) -> SourceLocationView {
        SourceLocationView {
            file: self.file@,
            line: self.line,
            column: self.column,
            address: self.address,
        }
    }
}

/// The address last recorded for a file and line.
#[derive(Debug, Clone, PartialEq, Eq)]
pub struct FileLine {
    pub file: String,
    pub line: u32,
    pub address: u64,
}

/// What a line map holds, as mathematical maps.
pub struct LineMapView {
    /// The line of each recorded program counter.
    pub pc_line: Map<u64, usize>,
    /// The program counters recorded for each line, in the order in which
    /// they were found.
    pub line_pcs: Map<usize, Seq<u64>>,
    /// The full location of each recorded program counter.
    pub locations: Map<u64, SourceLocationView>,
    /// The address last recorded for each file and line.
    pub file_lines: Map<(Seq<char>, u32), u64>,
    /// The files, in the order in which they were found.
    pub files: Seq<Seq<char>>,
    /// The recorded addresses that have been made available as program
    /// counters.
    pub mapped: Set<u64>,
}

impl LineMapView {
    /// The map without any row.
    pub open spec fn empty() -> LineMapView {
        LineMapView {
            pc_line: Map::empty(),
            line_pcs: Map::empty(),
            locations: Map::empty(),
            file_lines: Map::empty(),
            files: Seq::empty(),
            mapped: Set::empty(),
        }
    }

    /// The program counters recorded so far for `line`.
    pub open spec fn recorded_for(self, line: usize) -> Seq<u64> {
        if self.line_pcs.contains_key(line) {
            self.line_pcs[line]
        } else {
            Seq::empty()
        }
    }

    /// The map after one more row.
    pub open spec fn record(self, address: u64, file: Seq<char>, line: u32, column: u32) -> LineMapView {
        LineMapView {
            pc_line: self.pc_line.insert(address, line as usize),
            line_pcs: self.line_pcs.insert(
                line as usize,
                self.recorded_for(line as usize).push(address),
            ),
            locations: self.locations.insert(
                address,
                SourceLocationView { file, line, column, address },
            ),
            file_lines: self.file_lines.insert((file, line), address),
            files: if file.len() > 0 && !self.files.contains(file) {
                self.files.push(file)
            } else {
                self.files
            },
            mapped: self.mapped,
        }
    }

    /// The map after every recorded address has been made available as a
    /// program counter.
    pub open spec fn with_pc_mapping(self) -> LineMapView {
        LineMapView { mapped: self.mapped.union(self.pc_line.dom()), ..self }
    }

    /// The line of `pc`, if it was recorded.
    pub open spec fn line_for_pc(self, pc: u64) -> Option<usize> {
        if self.pc_line.contains_key(pc) {
            Some(self.pc_line[pc])
        } else {
            None
        }
    }

    /// The program counters of `line`: those recorded for it that are
    /// available as program counters, in the order in which they were found.
    pub open spec fn pcs_for_line(self, line: usize) -> Seq<u64> {
        self.recorded_for(line).filter(|a: u64| self.mapped.contains(a))
    }

    /// What holds of every line map: every recorded program counter has a
    /// location and stands in the list of its line, and the lists hold
    /// recorded program counters only.
    pub open spec fn consistent(self) -> bool {
        &&& self.pc_line.dom().finite()
        &&& self.locations.dom() == self.pc_line.dom()
        &&& self.mapped.subset_of(self.pc_line.dom())
        &&& forall|pc: u64| #[trigger]
            self.pc_line.contains_key(pc) ==> {
                &&& self.line_pcs.contains_key(self.pc_line[pc])
                &&& self.line_pcs[self.pc_line[pc]].contains(pc)
                &&& self.locations[pc].address == pc
                &&& self.locations[pc].line as usize == self.pc_line[pc]
            }
        &&& forall|line: usize, i: int|
            self.line_pcs.contains_key(line) && 0 <= i < self.line_pcs[line].len()
                ==> self.pc_line.contains_key(#[trigger] self.line_pcs[line][i])
        &&& forall|line: usize| #[trigger]
            self.line_pcs.contains_key(line) ==> self.line_pcs[line].len() > 0
        &&& forall|key: (Seq<char>, u32)| #[trigger]
            self.file_lines.contains_key(key) ==> self.pc_line.contains_key(self.file_lines[key])
        &&& self.files.no_duplicates()
        &&& forall|i: int| 0 <= i < self.files.len() ==> (#[trigger] self.files[i]).len() > 0
    }

    /// Whether every recorded address is available as a program counter.
    pub open spec fn complete(self) -> bool {
        self.mapped == self.pc_line.dom()
    }

    /// Whether every program counter in the list of a line has that line:
    /// no address was recorded with two different lines.
    pub open spec fn unambiguous(self) -> bool {
        forall|line: usize, i: int|
            self.line_pcs.contains_key(line) && 0 <= i < self.line_pcs[line].len()
                ==> self.pc_line[#[trigger] self.line_pcs[line][i]] == line
    }
}

/// Recording a row keeps a line map consistent.
#[verifier::rlimit(50)]
pub proof fn lemma_record_consistent(
    m: LineMapView,
    address: u64,
    file: Seq<char>,
    line: u32,
    column: u32,
)
    requires
        m.consistent(),
    ensures
        m.record(address, file, line, column).consistent(),
{
    let r = m.record(address, file, line, column);
    let l = line as usize;
    let old_list = m.recorded_for(l);
    let new_list = old_list.push(address);
    assert(new_list[old_list.len() as int] == address);
    assert(r.locations.dom() =~= r.pc_line.dom());
    assert forall|pc: u64| #[trigger] r.pc_line.contains_key(pc) implies {
        &&& r.line_pcs.contains_key(r.pc_line[pc])
        &&& r.line_pcs[r.pc_line[pc]].contains(pc)
        &&& r.locations[pc].address == pc
        &&& r.locations[pc].line as usize == r.pc_line[pc]
    } by {
        if pc != address {
            assert(m.pc_line.contains_key(pc));
            let pl = m.pc_line[pc];
            if pl == l {
                let i = choose|i: int| 0 <= i < old_list.len() && old_list[i] == pc;
                assert(new_list[i] == pc);
            }
        }
    }
    assert forall|ln: usize, i: int|
        r.line_pcs.contains_key(ln) && 0 <= i < r.line_pcs[ln].len() implies r.pc_line.contains_key(
        #[trigger] r.line_pcs[ln][i],
    ) by {
        if ln == l {
            if i < old_list.len() {
                assert(new_list[i] == old_list[i]);
                assert(m.line_pcs.contains_key(l));
                assert(m.pc_line.contains_key(m.line_pcs[l][i]));
            }
        } else {
            assert(m.pc_line.contains_key(m.line_pcs[ln][i]));
        }
    }
    assert forall|key: (Seq<char>, u32)| #[trigger]
        r.file_lines.contains_key(key) implies r.pc_line.contains_key(r.file_lines[key]) by {
        if key != (file, line) {
            assert(m.file_lines.contains_key(key));
        }
    }
    if file.len() > 0 && !m.files.contains(file) {
        assert forall|i: int, j: int|
            0 <= i < r.files.len() && 0 <= j < r.files.len() && i != j implies r.files[i]
            != r.files[j] by {
            if i < m.files.len() && j < m.files.len() {
            } else if i < m.files.len() {
                assert(m.files.contains(m.files[i]));
            } else {
                assert(m.files.contains(m.files[j]));
            }
        }
    }
}

/// The texts of a list of strings.
pub open spec fn texts(v: Seq<String>) -> Seq<Seq<char>> {
    Seq::new(v.len(), |i: int| v[i]@)
}

/// The map from file and line to address that a list of entries stands for.
pub open spec fn file_line_map(entries: Seq<FileLine>) -> Map<(Seq<char>, u32), u64> {
    Map::new(
        |key: (Seq<char>, u32)| file_line_index(entries, key) is Some,
        |key: (Seq<char>, u32)| entries[file_line_index(entries, key)->0].address,
    )
}

/// The first position in `entries` that holds `key`.
pub open spec fn file_line_index(entries: Seq<FileLine>, key: (Seq<char>, u32)) -> Option<int>
    decreases entries.len(),
{
    if entries.len() == 0 {
        None
    } else {
        match file_line_index(entries.drop_last(), key) {
            Some(i) => Some(i),
            None => if entries.last().file@ == key.0 && entries.last().line == key.1 {
                Some(entries.len() - 1)
            } else {
                None
            },
        }
    }
}

proof fn lemma_file_line_index(entries: Seq<FileLine>, key: (Seq<char>, u32))
    ensures
        match file_line_index(entries, key) {
            Some(i) => 0 <= i < entries.len() && entries[i].file@ == key.0 && entries[i].line
                == key.1 && forall|j: int|
                0 <= j < i ==> !((#[trigger] entries[j]).file@ == key.0 && entries[j].line
                    == key.1),
            None => forall|j: int|
                0 <= j < entries.len() ==> !((#[trigger] entries[j]).file@ == key.0
                    && entries[j].line == key.1),
        },
    decreases entries.len(),
{
    if entries.len() > 0 {
        lemma_file_line_index(entries.drop_last(), key);
        assert forall|j: int| 0 <= j < entries.len() - 1 implies entries.drop_last()[j]
            == entries[j] by {}
        match file_line_index(entries.drop_last(), key) {
            Some(i) => {
                assert(entries.drop_last()[i] == entries[i]);
                assert forall|j: int| 0 <= j < i implies !((#[trigger] entries[j]).file@ == key.0
                    && entries[j].line == key.1) by {
                    assert(entries.drop_last()[j] == entries[j]);
                }
            },
            None => {
                assert forall|j: int| 0 <= j < entries.len() - 1 implies !((
                #[trigger] entries[j]).file@ == key.0 && entries[j].line == key.1) by {
                    assert(entries.drop_last()[j] == entries[j]);
                }
            },
        }
    }
}

/// Whether no file and line occurs twice in `entries`.
pub open spec fn distinct_keys(entries: Seq<FileLine>) -> bool {
    forall|i: int, j: int|
        0 <= i < j < entries.len() ==> !((#[trigger] entries[i]).file@ == (#[trigger] entries[j]).file@
            && entries[i].line == entries[j].line)
}

proof fn lemma_index_of_entry(entries: Seq<FileLine>, i: int)
    requires
        distinct_keys(entries),
        0 <= i < entries.len(),
    ensures
        file_line_index(entries, (entries[i].file@, entries[i].line)) == Some(i),
{
    lemma_file_line_index(entries, (entries[i].file@, entries[i].line));
}

#[verifier::rlimit(50)]
proof fn lemma_file_line_push(entries: Seq<FileLine>, e: FileLine)
    requires
        distinct_keys(entries),
        file_line_index(entries, (e.file@, e.line)) is None,
    ensures
        distinct_keys(entries.push(e)),
        file_line_map(entries.push(e)) == file_line_map(entries).insert(
            (e.file@, e.line),
            e.address,
        ),
{
    let after = entries.push(e);
    lemma_file_line_index(entries, (e.file@, e.line));
    assert(after.drop_last() =~= entries);
    assert forall|i: int, j: int| 0 <= i < j < after.len() implies !((#[trigger] after[i]).file@ == (
    #[trigger] after[j]).file@ && after[i].line == after[j].line) by {
        if j < entries.len() {
            assert(after[i] == entries[i] && after[j] == entries[j]);
        } else {
            assert(after[i] == entries[i]);
        }
    }
    assert forall|key: (Seq<char>, u32)|
        #![trigger file_line_index(after, key)]
        {
            &&& file_line_index(after, key) is Some <==> (file_line_index(entries, key) is Some
                || key == (e.file@, e.line))
            &&& file_line_index(after, key) matches Some(k) ==> after[k].address == (if key == (
                e.file@,
                e.line,
            ) {
                e.address
            } else {
                entries[file_line_index(entries, key)->0].address
            })
        } by {
        lemma_file_line_index(entries, key);
        lemma_file_line_index(after, key);
        if let Some(k) = file_line_index(entries, key) {
            assert(after[k] == entries[k]);
        }
    }
    assert(file_line_map(after) =~= file_line_map(entries).insert((e.file@, e.line), e.address));
}

#[verifier::rlimit(50)]
proof fn lemma_file_line_update(entries: Seq<FileLine>, i: int, e: FileLine)
    requires
        distinct_keys(entries),
        0 <= i < entries.len(),
        entries[i].file@ == e.file@,
        entries[i].line == e.line,
    ensures
        distinct_keys(entries.update(i, e)),
        file_line_map(entries.update(i, e)) == file_line_map(entries).insert(
            (e.file@, e.line),
            e.address,
        ),
{
    let after = entries.update(i, e);
    assert forall|a: int, b: int| 0 <= a < b < after.len() implies !((#[trigger] after[a]).file@ == (
    #[trigger] after[b]).file@ && after[a].line == after[b].line) by {
        assert(after[a].file@ == entries[a].file@ && after[a].line == entries[a].line);
        assert(after[b].file@ == entries[b].file@ && after[b].line == entries[b].line);
    }
    assert forall|key: (Seq<char>, u32)|
        file_line_index(after, key) == file_line_index(entries, key) by {
        lemma_file_line_index(after, key);
        lemma_file_line_index(entries, key);
        match file_line_index(entries, key) {
            Some(k) => {
                assert(after[k].file@ == entries[k].file@ && after[k].line == entries[k].line);
                match file_line_index(after, key) {
                    Some(k2) => {
                        assert(after[k2].file@ == entries[k2].file@ && after[k2].line
                            == entries[k2].line);
                    },
                    None => {},
                }
            },
            None => {
                match file_line_index(after, key) {
                    Some(k2) => {
                        assert(after[k2].file@ == entries[k2].file@ && after[k2].line
                            == entries[k2].line);
                    },
                    None => {},
                }
            },
        }
    }
    lemma_index_of_entry(entries, i);
    assert forall|key: (Seq<char>, u32)|
        #![trigger file_line_index(after, key)]
        {
            &&& file_line_index(after, key) is Some <==> (file_line_index(entries, key) is Some
                || key == (e.file@, e.line))
            &&& file_line_index(after, key) matches Some(k) ==> after[k].address == (if key == (
                e.file@,
                e.line,
            ) {
                e.address
            } else {
                entries[file_line_index(entries, key)->0].address
            })
        } by {
        lemma_file_line_index(entries, key);
        lemma_file_line_index(after, key);
        if key.0 == e.file@ && key.1 == e.line {
            assert(key == (e.file@, e.line));
        }
    }
    assert(file_line_map(after) =~= file_line_map(entries).insert((e.file@, e.line), e.address));
}

/// Source-line information of a program.
pub struct LineMap {
    /// The line of each recorded address.
    address_to_line: HashMap<u64, usize>,
    /// The addresses recorded for each line.
    line_to_addresses: HashMap<usize, Vec<u64>>,
    /// The program counter of each mapped address.
    dwarf_to_pc: HashMap<u64, u64>,
    /// The address of each mapped program counter.
    pc_to_dwarf: HashMap<u64, u64>,
    /// The full location of each recorded address.
    source_locations: HashMap<u64, SourceLocation>,
    /// The address last recorded for each file and line; no file and line
    /// occurs twice.
    line_to_address: Vec<FileLine>,
    /// The files in order of discovery; none occurs twice.
    files: Vec<String>,
}

impl View for LineMap {
    type V = LineMapView;

    closed spec fn view(&self) -> LineMapView {
        LineMapView {
            pc_line: self.address_to_line@,
            line_pcs: Map::new(
                |l: usize| self.line_to_addresses@.contains_key(l),
                |l: usize| self.line_to_addresses@[l]@,
            ),
            locations: Map::new(
                |pc: u64| self.source_locations@.contains_key(pc),
                |pc: u64| self.source_locations@[pc]@,
            ),
            file_lines: file_line_map(self.line_to_address@),
            files: texts(self.files@),
            mapped: self.dwarf_to_pc@.dom(),
        }
    }
}

impl LineMap {
    /// What holds of the representation: program counters and addresses are
    /// the same numbers, and no file and line is stored twice.
    pub closed spec fn inv(&self) -> bool {
        &&& self.dwarf_to_pc@.dom() == self.pc_to_dwarf@.dom()
        &&& forall|a: u64| #[trigger]
            self.dwarf_to_pc@.contains_key(a) ==> self.dwarf_to_pc@[a] == a
                && self.pc_to_dwarf@[a] == a
        &&& distinct_keys(self.line_to_address@)
    }

    /// Well-formedness: the representation is sound and the contents are
    /// consistent.
    pub open spec fn wf(&self) -> bool {
        self.inv() && self@.consistent()
    }

    /// A line map without any row.
    pub fn new() -> (m: Self)
        ensures
            m.wf(),
            m@ == LineMapView::empty(),
    {
        let m = Self {
            address_to_line: HashMap::new(),
            line_to_addresses: HashMap::new(),
            dwarf_to_pc: HashMap::new(),
            pc_to_dwarf: HashMap::new(),
            source_locations: HashMap::new(),
            line_to_address: Vec::new(),
            files: Vec::new(),
        };
        proof {
            assert(m@.line_pcs =~= Map::<usize, Seq<u64>>::empty());
            assert(m@.locations =~= Map::<u64, SourceLocationView>::empty());
            assert(m@.file_lines =~= Map::<(Seq<char>, u32), u64>::empty());
            assert(m@.files =~= Seq::<Seq<char>>::empty());
            assert(m@.mapped =~= Set::<u64>::empty());
        }
        m
    }

    /// Records one row of the line-number table: the line and the full
    /// location of `address`, `address` as one more program counter of
    /// `line`, `address` as the last one seen for `file_path` and `line`, and
    /// `file_path`, unless it is empty or known, as one more file.
    #[verifier::rlimit(50)]
    pub fn record_row(&mut self, address: u64, file_path: String, line: u32, column: u32)
        requires
            old(self).wf(),
        ensures
            final(self).wf(),
            final(self)@ == old(self)@.record(address, file_path@, line, column),
    {
        let ghost before = self@;
        let key: usize = line as usize;
        self.address_to_line.insert(address, key);
        let mut list: Vec<u64> = match self.line_to_addresses.remove(&key) {
            Some(v) => v,
            None => Vec::new(),
        };
        list.push(address);
        self.line_to_addresses.insert(key, list);
        let location = SourceLocation { file: file_path.clone(), line, column, address };
        self.source_locations.insert(address, location);
        let entry = FileLine { file: file_path.clone(), line, address };
        match self.find_file_line(file_path.as_str(), line) {
            Some(i) => {
                proof {
                    lemma_file_line_index(self.line_to_address@, (file_path@, line));
                    lemma_file_line_update(self.line_to_address@, i as int, entry);
                }
                self.line_to_address.set(i, entry);
            },
            None => {
                proof {
                    lemma_file_line_push(self.line_to_address@, entry);
                }
                self.line_to_address.push(entry);
            },
        }
        let known: bool = self.knows_file(file_path.as_str());
        if !file_path.as_str().is_empty() && !known {
            let ghost names = texts(self.files@);
            self.files.push(file_path);
            assert(texts(self.files@) =~= names.push(file_path@));
        }
        proof {
            let after = before.record(address, file_path@, line, column);
            assert(self@.line_pcs =~= after.line_pcs);
            assert(self@.locations =~= after.locations);
            assert(self@.pc_line =~= after.pc_line);
            assert(self@.file_lines =~= after.file_lines);
            assert(self@.files =~= after.files);
            assert(self@ == after);
            lemma_record_consistent(before, address, file_path@, line, column);
        }
    }

    /// Whether `file` is among the files found so far.
    fn knows_file(&self, file: &str) -> (known: bool)
        ensures
            known == texts(self.files@).contains(file@),
    {
        let mut i: usize = 0;
        while i < self.files.len()
            invariant
                i <= self.files.len(),
                forall|j: int| 0 <= j < i ==> texts(self.files@)[j] != file@,
            decreases self.files.len() - i,
        {
            if str_equal(self.files[i].as_str(), file) {
                assert(texts(self.files@)[i as int] == file@);
                return true;
            }
            i = i + 1;
        }
        false
    }

    /// Makes every recorded address available as a program counter. The
    /// address of an instruction is its program counter.
    #[verifier::rlimit(50)]
    pub fn build_pc_mapping(&mut self)
        requires
            old(self).wf(),
        ensures
            final(self).wf(),
            final(self)@ == old(self)@.with_pc_mapping(),
            final(self)@.complete(),
    {
        let ghost before = self@;
        let ghost start = self.dwarf_to_pc@.dom();
        let collected: Vec<u64> = recorded_addresses(&self.address_to_line);
        let mut i: usize = 0;
        while i < collected.len()
            invariant
                i <= collected.len(),
                self.inv(),
                self.address_to_line@ == before.pc_line,
                self@.line_pcs == before.line_pcs,
                self@.locations == before.locations,
                self@.file_lines == before.file_lines,
                self@.files == before.files,
                self.dwarf_to_pc@.dom() == start.union(collected@.subrange(0, i as int).to_set()),
            decreases collected.len() - i,
        {
            let address: u64 = collected[i];
            self.dwarf_to_pc.insert(address, address);
            self.pc_to_dwarf.insert(address, address);
            i = i + 1;
            proof {
                let done = collected@.subrange(0, i as int);
                let prev = collected@.subrange(0, i - 1);
                assert(done =~= prev.push(address));
                lemma_to_set_push(prev, address);
                assert(done.to_set() =~= prev.to_set().insert(address));
                assert(self.dwarf_to_pc@.dom() =~= start.union(done.to_set()));
                assert(self.dwarf_to_pc@.dom() =~= self.pc_to_dwarf@.dom());
            }
        }
        proof {
            assert(collected@.subrange(0, i as int) =~= collected@);
            assert(self@.mapped =~= before.with_pc_mapping().mapped);
            assert(self@ == before.with_pc_mapping());
            assert(self@.mapped =~= self@.pc_line.dom());
        }
    }

    /// The line recorded for `address`.
    pub fn get_line_for_address(&self, address: u64) -> (line: Option<usize>)
        ensures
            line == self@.line_for_pc(address),
    {
        match self.address_to_line.get(&address) {
            Some(l) => Some(*l),
            None => None,
        }
    }

    /// The addresses recorded for `line`, in order of discovery.
    pub fn get_addresses_for_line(&self, line: usize) -> (list: Option<&[u64]>)
        ensures
            match list {
                Some(a) => self@.line_pcs.contains_key(line) && a@ == self@.line_pcs[line],
                None => !self@.line_pcs.contains_key(line),
            },
    {
        match self.line_to_addresses.get(&line) {
            Some(v) => Some(v.as_slice()),
            None => None,
        }
    }

    /// The line of the program counter `pc`, or `None` if none was recorded.
    pub fn get_line_for_pc(&self, pc: u64) -> (line: Option<usize>)
        requires
            self.wf(),
        ensures
            line == self@.line_for_pc(pc),
    {
        match self.pc_to_dwarf.get(&pc) {
            Some(a) => {
                let address: u64 = *a;
                assert(self.dwarf_to_pc@.contains_key(pc));
                self.get_line_for_address(address)
            },
            None => self.get_line_for_address(pc),
        }
    }

    /// The program counters of `line`, in order of discovery; empty if the
    /// line has none.
    #[verifier::rlimit(50)]
    pub fn get_pcs_for_line(&self, line: usize) -> (pcs: Vec<u64>)
        requires
            self.wf(),
        ensures
            pcs@ == self@.pcs_for_line(line),
    {
        let mut pcs: Vec<u64> = Vec::new();
        let ghost keep = |a: u64| self@.mapped.contains(a);
        match self.get_addresses_for_line(line) {
            Some(addresses) => {
                let mut i: usize = 0;
                proof {
                    reveal(Seq::filter);
                }
                while i < addresses.len()
                    invariant
                        i <= addresses.len(),
                        self.wf(),
                        keep == |a: u64| self@.mapped.contains(a),
                        pcs@ == addresses@.subrange(0, i as int).filter(keep),
                    decreases addresses.len() - i,
                {
                    let address: u64 = addresses[i];
                    proof {
                        reveal(Seq::filter);
                        assert(addresses@.subrange(0, i + 1).drop_last() =~= addresses@.subrange(
                            0,
                            i as int,
                        ));
                    }
                    match self.dwarf_to_pc.get(&address) {
                        Some(pc) => {
                            pcs.push(*pc);
                        },
                        None => {},
                    }
                    i = i + 1;
                }
                assert(addresses@.subrange(0, i as int) =~= addresses@);
            },
            None => {
                proof {
                    reveal(Seq::filter);
                }
            },
        }
        pcs
    }

    /// The full location recorded for `address`.
    pub fn get_source_location(&self, address: u64) -> (location: Option<&SourceLocation>)
        ensures
            match location {
                Some(l) => self@.locations.contains_key(address) && l@ == self@.locations[address],
                None => !self@.locations.contains_key(address),
            },
    {
        self.source_locations.get(&address)
    }

    /// The addresses of every line.
    pub fn get_line_to_addresses(&self) -> (table: &HashMap<usize, Vec<u64>>)
        ensures
            table@.dom() == self@.line_pcs.dom(),
            forall|line: usize| #[trigger]
                table@.contains_key(line) ==> table@[line]@ == self@.line_pcs[line],
    {
        assert(self.line_to_addresses@.dom() =~= self@.line_pcs.dom());
        &self.line_to_addresses
    }

    /// The files in order of discovery.
    pub fn get_files(&self) -> (files: &Vec<String>)
        ensures
            texts(files@) == self@.files,
    {
        &self.files
    }

    /// The address last recorded for `file` and `line`.
    pub fn get_address_for_file_line(&self, file: &str, line: u32) -> (address: Option<u64>)
        ensures
            match address {
                Some(a) => self@.file_lines.contains_key((file@, line)) && self@.file_lines[(
                    file@,
                    line,
                )] == a,
                None => !self@.file_lines.contains_key((file@, line)),
            },
    {
        match self.find_file_line(file, line) {
            Some(i) => Some(self.line_to_address[i].address),
            None => None,
        }
    }

    /// The position of `file` and `line` in the table of addresses.
    fn find_file_line(&self, file: &str, line: u32) -> (index: Option<usize>)
        ensures
            match index {
                Some(i) => i < self.line_to_address@.len() && file_line_index(
                    self.line_to_address@,
                    (file@, line),
                ) == Some(i as int),
                None => file_line_index(self.line_to_address@, (file@, line)) is None,
            },
    {
        let mut i: usize = 0;
        while i < self.line_to_address.len()
            invariant
                i <= self.line_to_address.len(),
                file_line_index(self.line_to_address@.subrange(0, i as int), (file@, line)) is None,
            decreases self.line_to_address.len() - i,
        {
            proof {
                let next = self.line_to_address@.subrange(0, i + 1);
                assert(next.drop_last() =~= self.line_to_address@.subrange(0, i as int));
                assert(next.last() == self.line_to_address@[i as int]);
            }
            if self.line_to_address[i].line == line && str_equal(
                self.line_to_address[i].file.as_str(),
                file,
            ) {
                proof {
                    let all = self.line_to_address@;
                    let before = all.subrange(0, i as int);
                    lemma_file_line_index(all, (file@, line));
                    lemma_file_line_index(before, (file@, line));
                    assert forall|j: int| 0 <= j < i implies !((#[trigger] all[j]).file@ == file@
                        && all[j].line == line) by {
                        assert(before[j] == all[j]);
                    }
                    assert(all[i as int].file@ == file@);
                }
                return Some(i);
            }
            i = i + 1;
        }
        assert(self.line_to_address@.subrange(0, i as int) =~= self.line_to_address@);
        None
    }
}

/// The elements of a sequence with one more at its end are those of the
/// sequence and the new one.
pub proof fn lemma_to_set_push<A>(s: Seq<A>, a: A)
    ensures
        s.push(a).to_set() == s.to_set().insert(a),
{
    let t = s.push(a);
    assert forall|x: A| t.to_set().contains(x) <==> (s.to_set().contains(x) || x == a) by {
        if s.contains(x) {
            let k = choose|k: int| 0 <= k < s.len() && s[k] == x;
            assert(t[k] == x);
        }
        if x == a {
            assert(t[s.len() as int] == x);
        }
        if t.contains(x) {
            let k = choose|k: int| 0 <= k < t.len() && t[k] == x;
            if k < s.len() {
                assert(s[k] == x);
            }
        }
    }
    assert(t.to_set() =~= s.to_set().insert(a));
}

/// The keys of `table`, each once, in no particular order.
fn recorded_addresses(table: &HashMap<u64, usize>) -> (keys: Vec<u64>)
    ensures
        keys@.to_set() == table@.dom(),
        keys@.no_duplicates(),
{
    let mut keys: Vec<u64> = Vec::new();
    let ghost all: Seq<u64> = vstd::std_specs::hash::spec_keys_iter(table).remaining().unref();
    for key in it: table.keys()
        invariant
            it.seq().unref() == all,
            keys@ == all.subrange(0, it.index() as int),
    {
        keys.push(*key);
        assert(keys@ =~= all.subrange(0, it.index() + 1));
    }
    assert(keys@ =~= all);
    keys
}

/// A file of the line-number table: the index and the name of its directory
/// (index 0 is the directory of the compilation unit) and its own name.
#[derive(Debug, Clone, PartialEq, Eq)]
pub struct FileEntry {
    pub directory_index: u64,
    pub directory: Option<String>,
    pub path_name: String,
}

/// A file of the line-number table as a plain value.
pub struct FileEntryView {
    pub directory_index: u64,
    pub directory: Option<Seq<char>>,
    pub path_name: Seq<char>,
}

impl View for FileEntry {
    type V = FileEntryView;

    open spec fn view(&self) -> FileEntryView {
        FileEntryView {
            directory_index: self.directory_index,
            directory: match self.directory {
                Some(d) => Some(d@),
                None => None,
            },
            path_name: self.path_name@,
        }
    }
}

/// A row of the line-number table. `path` is the path of its file, empty
/// where the row names none; `line` is `None` where the table gives none,
/// `column` is `None` for the left edge.
#[derive(Debug, Clone, PartialEq, Eq)]
pub struct LineRow {
    pub address: u64,
    pub end_sequence: bool,
    pub path: String,
    pub line: Option<u64>,
    pub column: Option<u64>,
}

/// A row of the line-number table as a plain value.
pub struct LineRowView {
    pub address: u64,
    pub end_sequence: bool,
    pub path: Seq<char>,
    pub line: Option<u64>,
    pub column: Option<u64>,
}

impl View for LineRow {
    type V = LineRowView;

    open spec fn view(&self) -> LineRowView {
        LineRowView {
            address: self.address,
            end_sequence: self.end_sequence,
            path: self.path@,
            line: self.line,
            column: self.column,
        }
    }
}

/// The rows of one compilation unit.
#[derive(Debug, Clone, PartialEq, Eq)]
pub struct UnitLines {
    pub rows: Vec<LineRow>,
}

/// The rows of one compilation unit as a plain value.
pub struct UnitLinesView {
    pub rows: Seq<LineRowView>,
}

impl View for UnitLines {
    type V = UnitLinesView;

    open spec fn view(&self) -> UnitLinesView {
        UnitLinesView { rows: Seq::new(self.rows@.len(), |i: int| self.rows@[i]@) }
    }
}

/// The views of a list of compilation units.
pub open spec fn unit_views(units: Seq<UnitLines>) -> Seq<UnitLinesView> {
    Seq::new(units.len(), |i: int| units[i]@)
}

/// The parts that the path of a file is made of, in the order in which
/// they are appended: the directory of the compilation unit (empty where
/// the unit names none), then the directory of the file unless its index is
/// zero or it has none, then the name of the file.
pub open spec fn path_parts(comp_dir: Option<Seq<char>>, file: FileEntryView) -> Seq<Seq<char>> {
    let base = match comp_dir {
        Some(d) => d,
        None => Seq::empty(),
    };
    if file.directory_index != 0 && file.directory is Some {
        seq![base, file.directory->0, file.path_name]
    } else {
        seq![base, file.path_name]
    }
}

/// A line or column number of the table as the map stores it: the low 32
/// bits, and 0 where the table gives none.
pub open spec fn stored_number(n: Option<u64>) -> u32 {
    match n {
        Some(v) => (v % 0x1_0000_0000) as u32,
        None => 0,
    }
}

impl LineMapView {
    /// The map after a row: rows that end a sequence are skipped, every
    /// other row is recorded.
    pub open spec fn with_row(self, row: LineRowView) -> LineMapView {
        if row.end_sequence {
            self
        } else {
            self.record(
                row.address,
                row.path,
                stored_number(row.line),
                stored_number(row.column),
            )
        }
    }

    /// The map after the rows of a unit, in order.
    pub open spec fn with_rows(self, rows: Seq<LineRowView>) -> LineMapView
        decreases rows.len(),
    {
        if rows.len() == 0 {
            self
        } else {
            self.with_rows(rows.drop_last()).with_row(rows.last())
        }
    }

    /// The map after the rows of every unit, in order.
    pub open spec fn with_units(self, units: Seq<UnitLinesView>) -> LineMapView
        decreases units.len(),
    {
        if units.len() == 0 {
            self
        } else {
            self.with_units(units.drop_last()).with_rows(units.last().rows)
        }
    }

    /// The line map of a program whose line-number table holds `units`.
    pub open spec fn of_units(units: Seq<UnitLinesView>) -> LineMapView {
        LineMapView::empty().with_units(units).with_pc_mapping()
    }
}

/// The parts that the path of `file` is made of.
pub fn file_path_parts(comp_dir: &Option<String>, file: &FileEntry) -> (parts: Vec<String>)
    ensures
        texts(parts@) == path_parts(
            match comp_dir {
                Some(d) => Some(d@),
                None => None,
            },
            file@,
        ),
{
    let mut parts: Vec<String> = Vec::new();
    match comp_dir {
        Some(d) => {
            parts.push(d.clone());
        },
        None => {
            parts.push(String::new());
        },
    }
    if file.directory_index != 0 {
        match &file.directory {
            Some(d) => {
                parts.push(d.clone());
            },
            None => {},
        }
    }
    parts.push(file.path_name.clone());
    assert(texts(parts@) =~= path_parts(
        match comp_dir {
            Some(d) => Some(d@),
            None => None,
        },
        file@,
    ));
    parts
}

/// `PathBuf::from_iter` of the standard library, which starts with the
/// empty path and appends every part with `PathBuf::push`, and
/// `Path::to_string_lossy`: the parts as one path. Nothing is claimed of
/// the result: how paths are joined is for the platform to say.
#[verifier::external_body]
fn join_path(parts: &Vec<String>) -> (path: String) {
    parts.iter().collect::<std::path::PathBuf>().to_string_lossy().into_owned()
}

/// The path of the file of a row: empty where the row names no file;
/// otherwise the parts of the path, appended as paths are on the platform.
pub fn resolve_path(comp_dir: &Option<String>, file: &Option<FileEntry>) -> (path: String)
    ensures
        file is None ==> path@ == Seq::<char>::empty(),
{
    match file {
        None => String::new(),
        Some(f) => {
            let parts: Vec<String> = file_path_parts(comp_dir, f);
            join_path(&parts)
        },
    }
}

/// A line or column number as the map stores it.
pub fn store_number(n: Option<u64>) -> (v: u32)
    ensures
        v == stored_number(n),
{
    match n {
        Some(x) => (x % 0x1_0000_0000) as u32,
        None => 0,
    }
}

impl LineMap {
    /// Records the rows of one compilation unit.
    #[verifier::rlimit(50)]
    pub fn add_unit(&mut self, unit: &UnitLines)
        requires
            old(self).wf(),
        ensures
            final(self).wf(),
            final(self)@ == old(self)@.with_rows(unit@.rows),
    {
        let ghost before = self@;
        let ghost rows = unit@.rows;
        let mut i: usize = 0;
        while i < unit.rows.len()
            invariant
                i <= unit.rows.len(),
                self.wf(),
                rows == unit@.rows,
                self@ == before.with_rows(rows.subrange(0, i as int)),
            decreases unit.rows.len() - i,
        {
            let row: &LineRow = &unit.rows[i];
            proof {
                assert(rows.subrange(0, i + 1).drop_last() =~= rows.subrange(0, i as int));
                assert(rows.subrange(0, i + 1).last() == row@);
            }
            if !row.end_sequence {
                let path: String = row.path.clone();
                self.record_row(
                    row.address,
                    path,
                    store_number(row.line),
                    store_number(row.column),
                );
            }
            i = i + 1;
        }
        assert(rows.subrange(0, i as int) =~= rows);
    }

    /// The line map of a program whose line-number table holds `units`.
    #[verifier::rlimit(50)]
    pub fn from_units(units: &[UnitLines]) -> (m: LineMap)
        ensures
            m.wf(),
            m@ == LineMapView::of_units(unit_views(units@)),
            m@.complete(),
    {
        let mut m: LineMap = LineMap::new();
        let ghost views = unit_views(units@);
        let mut i: usize = 0;
        while i < units.len()
            invariant
                i <= units.len(),
                m.wf(),
                views == unit_views(units@),
                m@ == LineMapView::empty().with_units(views.subrange(0, i as int)),
            decreases units.len() - i,
        {
            proof {
                assert(views.subrange(0, i + 1).drop_last() =~= views.subrange(0, i as int));
                assert(views.subrange(0, i + 1).last() == units@[i as int]@);
            }
            m.add_unit(&units[i]);
            i = i + 1;
        }
        assert(views.subrange(0, i as int) =~= views);
        m.build_pc_mapping();
        m
    }
}

impl LineMapView {
    /// One line of the sample that the summary shows for `address`.
    pub open spec fn sample_line(self, address: u64) -> Seq<char> {
        "  DWARF 0x"@ + crate::text::hex(address as nat) + " -> PC 0x"@ + crate::text::hex(
            if self.mapped.contains(address) {
                address as nat
            } else {
                0
            },
        ) + " -> line "@ + crate::text::decimal(self.pc_line[address] as nat) + "\n"@
    }

    /// The sample lines for the addresses of `sample`, in order.
    pub open spec fn sample_lines(self, sample: Seq<u64>) -> Seq<char>
        decreases sample.len(),
    {
        if sample.len() == 0 {
            Seq::empty()
        } else {
            self.sample_lines(sample.drop_last()) + self.sample_line(sample.last())
        }
    }

    /// The summary of the map that shows the addresses of `sample`.
    pub open spec fn debug_text(self, sample: Seq<u64>) -> Seq<char> {
        let n = self.pc_line.dom().len();
        let totals = "Total DWARF address mappings: "@ + crate::text::decimal(n) + "\n"@
            + "Total line mappings: "@ + crate::text::decimal(self.line_pcs.dom().len()) + "\n"@
            + "Total PC mappings: "@ + crate::text::decimal(self.mapped.len()) + "\n"@
            + "Total source locations: "@ + crate::text::decimal(self.locations.dom().len())
            + "\n"@;
        if n == 0 {
            totals
        } else {
            let shown = totals + "Sample DWARF address mappings:\n"@ + self.sample_lines(sample);
            if sample.len() < n {
                shown + "  ... and "@ + crate::text::decimal((n - sample.len()) as nat)
                    + " more\n"@
            } else {
                shown
            }
        }
    }

    /// Whether `sample` may be shown in the summary: up to five recorded
    /// addresses, each once, and all of them if there are at most five.
    pub open spec fn is_sample(self, sample: Seq<u64>) -> bool {
        &&& sample.no_duplicates()
        &&& forall|i: int| 0 <= i < sample.len() ==> self.pc_line.contains_key(#[trigger] sample[i])
        &&& sample.len() == if self.pc_line.dom().len() < 5 {
            self.pc_line.dom().len()
        } else {
            5
        }
    }
}

impl LineMap {
    /// A summary of the map: the size of each table and up to five of the
    /// recorded addresses with their program counter and line. Which
    /// addresses are shown is not fixed.
    #[verifier::rlimit(50)]
    pub fn debug_info(&self) -> (info: String)
        requires
            self.wf(),
        ensures
            exists|sample: Seq<u64>| #[trigger]
                self@.is_sample(sample) && info@ == self@.debug_text(sample),
    {
        let mut info: String = String::new();
        let total: usize = self.address_to_line.len();
        crate::text::push_str(&mut info, "Total DWARF address mappings: ");
        crate::text::push_decimal(&mut info, total as u64);
        crate::text::push_str(&mut info, "\n");
        crate::text::push_str(&mut info, "Total line mappings: ");
        crate::text::push_decimal(&mut info, self.line_to_addresses.len() as u64);
        crate::text::push_str(&mut info, "\n");
        crate::text::push_str(&mut info, "Total PC mappings: ");
        crate::text::push_decimal(&mut info, self.pc_to_dwarf.len() as u64);
        crate::text::push_str(&mut info, "\n");
        crate::text::push_str(&mut info, "Total source locations: ");
        crate::text::push_decimal(&mut info, self.source_locations.len() as u64);
        crate::text::push_str(&mut info, "\n");
        proof {
            assert(self.line_to_addresses@.dom() =~= self@.line_pcs.dom());
            assert(self.source_locations@.dom() =~= self@.locations.dom());
            assert(self.pc_to_dwarf@.dom() =~= self@.mapped);
        }
        if total == 0 {
            proof {
                assert(self@.is_sample(Seq::<u64>::empty()));
                assert(info@ =~= self@.debug_text(Seq::<u64>::empty()));
            }
            return info;
        }
        crate::text::push_str(&mut info, "Sample DWARF address mappings:\n");
        let keys: Vec<u64> = recorded_addresses(&self.address_to_line);
        proof {
            keys@.unique_seq_to_set();
        }
        let shown: usize = if keys.len() < 5 {
            keys.len()
        } else {
            5
        };
        let ghost head = info@;
        let mut count: usize = 0;
        while count < shown
            invariant
                count <= shown <= keys.len(),
                self.wf(),
                keys@.to_set() == self.address_to_line@.dom(),
                info@ == head + self@.sample_lines(keys@.subrange(0, count as int)),
            decreases shown - count,
        {
            let address: u64 = keys[count];
            proof {
                let next = keys@.subrange(0, count + 1);
                assert(next.drop_last() =~= keys@.subrange(0, count as int));
                assert(next.last() == address);
                assert(keys@.to_set().contains(address));
            }
            let pc: u64 = match self.dwarf_to_pc.get(&address) {
                Some(p) => *p,
                None => 0,
            };
            let line: usize = match self.address_to_line.get(&address) {
                Some(l) => *l,
                None => 0,
            };
            let ghost so_far = info@;
            crate::text::push_str(&mut info, "  DWARF 0x");
            crate::text::push_hex(&mut info, address);
            crate::text::push_str(&mut info, " -> PC 0x");
            crate::text::push_hex(&mut info, pc);
            crate::text::push_str(&mut info, " -> line ");
            crate::text::push_decimal(&mut info, line as u64);
            crate::text::push_str(&mut info, "\n");
            assert(info@ =~= so_far + self@.sample_line(address));
            count = count + 1;
            assert(info@ =~= head + self@.sample_lines(keys@.subrange(0, count as int)));
        }
        let ghost sample = keys@.subrange(0, count as int);
        if count < total {
            crate::text::push_str(&mut info, "  ... and ");
            crate::text::push_decimal(&mut info, (total - count) as u64);
            crate::text::push_str(&mut info, " more\n");
        }
        proof {
            assert forall|i: int| 0 <= i < sample.len() implies self@.pc_line.contains_key(
                #[trigger] sample[i],
            ) by {
                assert(keys@.to_set().contains(keys@[i]));
            }
            assert(self@.is_sample(sample));
            assert(info@ =~= self@.debug_text(sample));
        }
        info
    }
}

/// For a program counter that a complete map holds, and in which no address
/// was recorded with two different lines: its line is `line` exactly when it
/// is among the program counters of `line`.
pub proof fn lemma_line_of_pc_iff_pc_of_line(m: LineMapView, pc: u64, line: usize)
    requires
        m.consistent(),
        m.complete(),
        m.unambiguous(),
        m.pc_line.contains_key(pc),
    ensures
        m.line_for_pc(pc) == Some(line) <==> m.pcs_for_line(line).contains(pc),
{
    let keep = |a: u64| m.mapped.contains(a);
    let list = m.recorded_for(line);
    if m.pc_line[pc] == line {
        let i = choose|i: int| 0 <= i < list.len() && list[i] == pc;
        list.lemma_filter_contains(keep, i);
    }
    if list.filter(keep).contains(pc) {
        list.lemma_filter_contains_rev(keep, pc);
        let i = choose|i: int| 0 <= i < list.len() && list[i] == pc;
        assert(m.line_pcs.contains_key(line));
        assert(m.pc_line[m.line_pcs[line][i]] == line);
    }
}

/// Without the condition on the lines, one direction still holds: a
/// recorded program counter of a complete map is among the program counters
/// of its line.
pub proof fn lemma_pc_among_pcs_of_its_line(m: LineMapView, pc: u64)
    requires
        m.consistent(),
        m.complete(),
        m.pc_line.contains_key(pc),
    ensures
        m.pcs_for_line(m.pc_line[pc]).contains(pc),
{
    let keep = |a: u64| m.mapped.contains(a);
    let list = m.recorded_for(m.pc_line[pc]);
    let i = choose|i: int| 0 <= i < list.len() && list[i] == pc;
    list.lemma_filter_contains(keep, i);
}

/// Recording a row for an address that is new, or that already has the
/// line of the row, keeps the lines of the map unambiguous.
pub proof fn lemma_record_unambiguous(
    m: LineMapView,
    address: u64,
    file: Seq<char>,
    line: u32,
    column: u32,
)
    requires
        m.consistent(),
        m.unambiguous(),
        m.pc_line.contains_key(address) ==> m.pc_line[address] == line as usize,
    ensures
        m.record(address, file, line, column).unambiguous(),
{
    let r = m.record(address, file, line, column);
    let l = line as usize;
    let old_list = m.recorded_for(l);
    assert forall|ln: usize, i: int|
        r.line_pcs.contains_key(ln) && 0 <= i < r.line_pcs[ln].len() implies r.pc_line[
    #[trigger] r.line_pcs[ln][i]] == ln by {
        if ln == l {
            if i < old_list.len() {
                assert(m.line_pcs.contains_key(l));
                assert(m.pc_line[m.line_pcs[l][i]] == l);
            }
        } else {
            assert(m.pc_line[m.line_pcs[ln][i]] == ln);
            assert(m.pc_line.contains_key(m.line_pcs[ln][i]));
        }
    }
}

impl LineMapView {
    /// Whether a row agrees with the map: it ends a sequence, or its address
    /// is new, or its address already has the line of the row.
    pub open spec fn agrees_with(self, row: LineRowView) -> bool {
        row.end_sequence || !self.pc_line.contains_key(row.address) || self.pc_line[row.address]
            == stored_number(row.line) as usize
    }

    /// Whether every row of `rows` agrees with the map that the rows before
    /// it give.
    pub open spec fn rows_agree(self, rows: Seq<LineRowView>) -> bool
        decreases rows.len(),
    {
        rows.len() == 0 || (self.rows_agree(rows.drop_last()) && self.with_rows(
            rows.drop_last(),
        ).agrees_with(rows.last()))
    }

    /// Whether every row of every unit agrees with the map that the rows
    /// before it give.
    pub open spec fn units_agree(self, units: Seq<UnitLinesView>) -> bool
        decreases units.len(),
    {
        units.len() == 0 || (self.units_agree(units.drop_last()) && self.with_units(
            units.drop_last(),
        ).rows_agree(units.last().rows))
    }
}

/// The rows of a unit keep a map consistent; rows that agree with what was
/// recorded before them keep its lines unambiguous.
pub proof fn lemma_with_rows(m: LineMapView, rows: Seq<LineRowView>)
    requires
        m.consistent(),
    ensures
        m.with_rows(rows).consistent(),
        m.with_rows(rows).mapped == m.mapped,
        m.unambiguous() && m.rows_agree(rows) ==> m.with_rows(rows).unambiguous(),
    decreases rows.len(),
{
    if rows.len() > 0 {
        lemma_with_rows(m, rows.drop_last());
        let before = m.with_rows(rows.drop_last());
        let row = rows.last();
        if !row.end_sequence {
            let file = row.path;
            lemma_record_consistent(
                before,
                row.address,
                file,
                stored_number(row.line),
                stored_number(row.column),
            );
            if m.unambiguous() && m.rows_agree(rows) {
                lemma_record_unambiguous(
                    before,
                    row.address,
                    file,
                    stored_number(row.line),
                    stored_number(row.column),
                );
            }
        }
    }
}

/// The rows of a list of units keep a map consistent; rows that agree with
/// what was recorded before them keep its lines unambiguous.
pub proof fn lemma_with_units(m: LineMapView, units: Seq<UnitLinesView>)
    requires
        m.consistent(),
    ensures
        m.with_units(units).consistent(),
        m.with_units(units).mapped == m.mapped,
        m.unambiguous() && m.units_agree(units) ==> m.with_units(units).unambiguous(),
    decreases units.len(),
{
    if units.len() > 0 {
        lemma_with_units(m, units.drop_last());
        lemma_with_rows(m.with_units(units.drop_last()), units.last().rows);
    }
}

/// In the line map of a program in which no address is recorded with two
/// different lines, the line of a recorded program counter is `line`
/// exactly when the program counter is among those of `line`.
pub proof fn lemma_line_map_of_units(units: Seq<UnitLinesView>, pc: u64, line: usize)
    requires
        LineMapView::empty().units_agree(units),
        LineMapView::of_units(units).pc_line.contains_key(pc),
    ensures
        LineMapView::of_units(units).line_for_pc(pc) == Some(line) <==> LineMapView::of_units(
            units,
        ).pcs_for_line(line).contains(pc),
{
    let empty = LineMapView::empty();
    lemma_with_units(empty, units);
    let m = LineMapView::of_units(units);
    assert(m.mapped =~= m.pc_line.dom());
    assert(m.consistent());
    assert(m.unambiguous());
    lemma_line_of_pc_iff_pc_of_line(m, pc, line);
}

/// Whether the numbers of `v` rise from each to the next.
pub open spec fn rising(v: Seq<usize>) -> bool {
    forall|i: int, j: int| 0 <= i < j < v.len() ==> v[i] < v[j]
}

/// Puts `x` into `sorted`, which rises, at its place. Nothing happens if
/// `x` is there already.
fn insert_rising(sorted: &mut Vec<usize>, x: usize)
    requires
        rising(old(sorted)@),
    ensures
        rising(final(sorted)@),
        final(sorted)@.to_set() == old(sorted)@.to_set().insert(x),
{
    let ghost before = sorted@;
    let mut p: usize = sorted.len();
    while p > 0 && sorted[p - 1] >= x
        invariant
            p <= sorted.len(),
            sorted@ == before,
            forall|k: int| p <= k < sorted.len() ==> sorted@[k] >= x,
        decreases p,
    {
        p = p - 1;
    }
    if p < sorted.len() && sorted[p] == x {
        assert(before.to_set() =~= before.to_set().insert(x)) by {
            assert(before[p as int] == x);
        }
        return ;
    }
    sorted.insert(p, x);
    proof {
        let after = sorted@;
        assert forall|i: int, j: int| 0 <= i < j < after.len() implies after[i] < after[j] by {
            if j < p {
                assert(after[i] == before[i] && after[j] == before[j]);
            } else if j == p {
                assert(after[i] == before[i]);
            } else if i < p {
                assert(after[i] == before[i] && after[j] == before[j - 1]);
            } else if i == p {
                assert(after[j] == before[j - 1]);
            } else {
                assert(after[i] == before[i - 1] && after[j] == before[j - 1]);
            }
        }
        assert forall|y: usize| after.to_set().contains(y) <==> (before.to_set().contains(y) || y
            == x) by {
            if before.contains(y) {
                let k = choose|k: int| 0 <= k < before.len() && before[k] == y;
                if k < p {
                    assert(after[k] == y);
                } else {
                    assert(after[k + 1] == y);
                }
            }
            if y == x {
                assert(after[p as int] == x);
            }
            if after.contains(y) {
                let k = choose|k: int| 0 <= k < after.len() && after[k] == y;
                if k < p {
                    assert(before[k] == y);
                } else if k > p {
                    assert(before[k - 1] == y);
                }
            }
        }
        assert(after.to_set() =~= before.to_set().insert(x));
    }
}

impl LineMap {
    /// The lines that have addresses, in rising order.
    pub fn get_lines(&self) -> (lines: Vec<usize>)
        ensures
            rising(lines@),
            lines@.to_set() == self@.line_pcs.dom(),
    {
        let mut lines: Vec<usize> = Vec::new();
        let ghost all: Seq<usize> = vstd::std_specs::hash::spec_keys_iter(
            &self.line_to_addresses,
        ).remaining().unref();
        assert(lines@.to_set() =~= Set::<usize>::empty());
        assert(all.subrange(0, 0).to_set() =~= Set::<usize>::empty());
        for key in it: self.line_to_addresses.keys()
            invariant
                it.seq().unref() == all,
                rising(lines@),
                lines@.to_set() == all.subrange(0, it.index() as int).to_set(),
        {
            insert_rising(&mut lines, *key);
            proof {
                let done = all.subrange(0, it.index() + 1);
                lemma_to_set_push(all.subrange(0, it.index() as int), *key);
                assert(done =~= all.subrange(0, it.index() as int).push(*key));
            }
        }
        proof {
            assert(all.subrange(0, all.len() as int) =~= all);
            assert(self.line_to_addresses@.dom() =~= self@.line_pcs.dom());
        }
        lines
    }
}

} // verus!
