use sbpf_debugger::text::str_equal;
use sbpf_debugger::parser::{
    file_path_parts, resolve_path, store_number, FileEntry, LineMap, LineRow, UnitLines,
};

fn file(directory_index: u64, directory: Option<&str>, path_name: &str) -> FileEntry {
    FileEntry {
        directory_index,
        directory: directory.map(String::from),
        path_name: path_name.to_string(),
    }
}

/// A row for the file `path_name` in the directory of its unit; `unit` makes the path.
fn row(address: u64, line: u64, path_name: &str) -> LineRow {
    LineRow { address, end_sequence: false, path: path_name.to_string(), line: Some(line), column: None }
}

fn end_of_sequence(address: u64) -> LineRow {
    LineRow { address, end_sequence: true, path: String::new(), line: None, column: None }
}

/// The rows of a unit compiled in `comp_dir`, each with the path of its file resolved as the
/// reader of the debug information does.
fn unit(comp_dir: Option<&str>, rows: Vec<LineRow>) -> UnitLines {
    let comp_dir = comp_dir.map(String::from);
    let rows = rows
        .into_iter()
        .map(|row| {
            if row.end_sequence || row.path.is_empty() {
                row
            } else {
                let path = resolve_path(&comp_dir, &Some(file(0, None, &row.path)));
                LineRow { path, ..row }
            }
        })
        .collect();
    UnitLines { rows }
}

fn sample_map() -> LineMap {
    LineMap::from_units(&[unit(
        Some("/work"),
        vec![
            row(0x100, 3, "main.s"),
            row(0x108, 3, "main.s"),
            row(0x110, 4, "main.s"),
            row(0x118, 7, "lib.s"),
            end_of_sequence(0x120),
        ],
    )])
}

#[test]
fn a_new_map_is_empty() {
    let map = LineMap::new();
    assert_eq!(map.get_line_for_pc(0), None);
    assert_eq!(map.get_line_for_address(0x100), None);
    assert_eq!(map.get_addresses_for_line(3), None);
    assert_eq!(map.get_pcs_for_line(3), Vec::<u64>::new());
    assert!(map.get_source_location(0x100).is_none());
    assert!(map.get_line_to_addresses().is_empty());
    assert!(map.get_files().is_empty());
    assert_eq!(
        map.debug_info(),
        "Total DWARF address mappings: 0\nTotal line mappings: 0\nTotal PC mappings: 0\nTotal source locations: 0\n"
    );
}

#[test]
fn rows_fill_every_table() {
    let map = sample_map();
    assert_eq!(map.get_line_for_pc(0x100), Some(3));
    assert_eq!(map.get_line_for_pc(0x108), Some(3));
    assert_eq!(map.get_line_for_pc(0x110), Some(4));
    assert_eq!(map.get_line_for_pc(0x118), Some(7));
    // the row that ends the sequence is not recorded
    assert_eq!(map.get_line_for_pc(0x120), None);
    assert_eq!(map.get_line_for_address(0x110), Some(4));

    assert_eq!(map.get_pcs_for_line(3), vec![0x100, 0x108]);
    assert_eq!(map.get_pcs_for_line(4), vec![0x110]);
    assert_eq!(map.get_pcs_for_line(5), Vec::<u64>::new());
    assert_eq!(map.get_addresses_for_line(3), Some(&[0x100u64, 0x108][..]));
    assert_eq!(map.get_addresses_for_line(5), None);

    let location = map.get_source_location(0x118).unwrap();
    assert_eq!(location.file, "/work/lib.s");
    assert_eq!((location.line, location.column, location.address), (7, 0, 0x118));
    assert!(map.get_source_location(0x120).is_none());

    assert_eq!(map.get_files(), &vec!["/work/main.s".to_string(), "/work/lib.s".to_string()]);
    assert_eq!(map.get_address_for_file_line("/work/main.s", 3), Some(0x108));
    assert_eq!(map.get_address_for_file_line("/work/main.s", 4), Some(0x110));
    assert_eq!(map.get_address_for_file_line("/work/lib.s", 3), None);

    let table = map.get_line_to_addresses();
    assert_eq!(table.len(), 3);
    assert_eq!(table[&3], vec![0x100, 0x108]);
    assert_eq!(table[&7], vec![0x118]);
}

#[test]
fn line_of_pc_and_pcs_of_line_agree() {
    let map = sample_map();
    for pc in [0x100u64, 0x108, 0x110, 0x118] {
        let line = map.get_line_for_pc(pc).unwrap();
        for candidate in 0..10usize {
            assert_eq!(map.get_pcs_for_line(candidate).contains(&pc), candidate == line);
        }
    }
}

#[test]
fn an_address_recorded_with_two_lines_keeps_the_last_line() {
    let map = LineMap::from_units(&[unit(None, vec![row(0x10, 1, "a.s"), row(0x10, 2, "a.s")])]);
    assert_eq!(map.get_line_for_pc(0x10), Some(2));
    assert_eq!(map.get_pcs_for_line(2), vec![0x10]);
    // the list of the first line still names the address
    assert_eq!(map.get_pcs_for_line(1), vec![0x10]);
    assert_eq!(map.get_source_location(0x10).unwrap().line, 2);
}

#[test]
fn program_counters_appear_only_after_the_mapping_is_built() {
    let mut map = LineMap::new();
    map.record_row(0x40, "x.s".to_string(), 9, 2);
    assert_eq!(map.get_line_for_pc(0x40), Some(9));
    assert_eq!(map.get_addresses_for_line(9), Some(&[0x40u64][..]));
    assert_eq!(map.get_pcs_for_line(9), Vec::<u64>::new());
    map.build_pc_mapping();
    assert_eq!(map.get_pcs_for_line(9), vec![0x40]);
    assert_eq!(map.get_line_for_pc(0x40), Some(9));
    assert_eq!(map.get_source_location(0x40).unwrap().column, 2);
}

#[test]
fn files_are_listed_once_and_empty_names_not_at_all() {
    let mut map = LineMap::new();
    map.record_row(1, "b.s".to_string(), 1, 0);
    map.record_row(2, String::new(), 1, 0);
    map.record_row(3, "a.s".to_string(), 2, 0);
    map.record_row(4, "b.s".to_string(), 3, 0);
    assert_eq!(map.get_files(), &vec!["b.s".to_string(), "a.s".to_string()]);
    assert_eq!(map.get_address_for_file_line("", 1), Some(2));
    assert_eq!(map.get_address_for_file_line("b.s", 1), Some(1));
}

#[test]
fn units_are_recorded_in_order() {
    let map = LineMap::from_units(&[
        unit(Some("/one"), vec![row(0x8, 5, "f.s")]),
        unit(Some("/two"), vec![row(0x10, 5, "f.s"), row(0x18, 5, "/abs/g.s")]),
    ]);
    assert_eq!(map.get_pcs_for_line(5), vec![0x8, 0x10, 0x18]);
    assert_eq!(
        map.get_files(),
        &vec!["/one/f.s".to_string(), "/two/f.s".to_string(), "/abs/g.s".to_string()]
    );
    assert_eq!(map.get_address_for_file_line("/two/f.s", 5), Some(0x10));
}

#[test]
fn paths_are_joined_as_paths() {
    let cases = [
        ("", "a", "a"),
        ("/x", "a", "/x/a"),
        ("/x/", "a", "/x/a"),
        ("/x", "/a", "/a"),
        ("x", "", "x/"),
        ("", "", ""),
        ("/", "a", "/a"),
    ];
    for (base, component, expected) in cases {
        let path = resolve_path(&Some(base.to_string()), &Some(file(0, None, component)));
        assert_eq!(path, expected, "{:?} + {:?}", base, component);
        let mut by_std = std::path::PathBuf::from(base);
        by_std.push(component);
        assert_eq!(by_std.to_string_lossy(), expected);
    }
}

#[test]
fn file_paths_start_at_the_directory_of_the_unit() {
    let dir = Some("/src".to_string());
    assert_eq!(resolve_path(&dir, &None), "");
    assert_eq!(resolve_path(&dir, &Some(file(0, None, "a.s"))), "/src/a.s");
    assert_eq!(resolve_path(&dir, &Some(file(0, Some("ignored"), "a.s"))), "/src/a.s");
    assert_eq!(resolve_path(&dir, &Some(file(1, Some("sub"), "a.s"))), "/src/sub/a.s");
    assert_eq!(resolve_path(&dir, &Some(file(2, Some("/abs"), "a.s"))), "/abs/a.s");
    assert_eq!(resolve_path(&dir, &Some(file(1, None, "a.s"))), "/src/a.s");
    assert_eq!(resolve_path(&None, &Some(file(1, Some("sub"), "a.s"))), "sub/a.s");
    assert_eq!(resolve_path(&None, &Some(file(0, None, "a.s"))), "a.s");
}

#[test]
fn line_and_column_numbers_keep_their_low_32_bits() {
    assert_eq!(store_number(None), 0);
    assert_eq!(store_number(Some(7)), 7);
    assert_eq!(store_number(Some(u32::MAX as u64)), u32::MAX);
    assert_eq!(store_number(Some(0x1_0000_0005)), 5);

    let map = LineMap::from_units(&[unit(
        None,
        vec![LineRow {
            address: 0x20,
            end_sequence: false,
            path: resolve_path(&Some("/src".to_string()), &None),
            line: None,
            column: Some(0x2_0000_0003),
        }],
    )]);
    assert_eq!(map.get_line_for_pc(0x20), Some(0));
    let location = map.get_source_location(0x20).unwrap();
    assert_eq!((location.file.as_str(), location.line, location.column), ("", 0, 3));
    assert!(map.get_files().is_empty());
}

#[test]
fn the_summary_counts_the_tables() {
    let mut map = LineMap::new();
    map.record_row(0x1f, "a.s".to_string(), 12, 0);
    assert_eq!(
        map.debug_info(),
        "Total DWARF address mappings: 1\nTotal line mappings: 1\nTotal PC mappings: 0\nTotal source locations: 1\nSample DWARF address mappings:\n  DWARF 0x1f -> PC 0x0 -> line 12\n"
    );
    map.build_pc_mapping();
    assert_eq!(
        map.debug_info(),
        "Total DWARF address mappings: 1\nTotal line mappings: 1\nTotal PC mappings: 1\nTotal source locations: 1\nSample DWARF address mappings:\n  DWARF 0x1f -> PC 0x1f -> line 12\n"
    );

    let rows: Vec<LineRow> = (0..8u64).map(|i| row(0x100 + 8 * i, 1 + i % 2, "a.s")).collect();
    let big = LineMap::from_units(&[unit(None, rows)]);
    let info = big.debug_info();
    let lines: Vec<&str> = info.lines().collect();
    assert_eq!(lines.len(), 4 + 1 + 5 + 1);
    assert_eq!(lines[0], "Total DWARF address mappings: 8");
    assert_eq!(lines[1], "Total line mappings: 2");
    assert_eq!(lines[2], "Total PC mappings: 8");
    assert_eq!(lines[3], "Total source locations: 8");
    assert_eq!(lines[4], "Sample DWARF address mappings:");
    for shown in &lines[5..10] {
        assert!(shown.starts_with("  DWARF 0x1"));
    }
    assert_eq!(lines[10], "  ... and 3 more");
    assert!(info.ends_with('\n'));
}

#[test]
fn strings_compare_by_their_text() {
    assert!(str_equal("", ""));
    assert!(str_equal("séance", "séance"));
    assert!(!str_equal("a", "b"));
    assert!(!str_equal("a", "ab"));
}

#[test]
fn lines_are_listed_in_rising_order() {
    assert_eq!(LineMap::new().get_lines(), Vec::<usize>::new());
    let map = LineMap::from_units(&[unit(
        None,
        vec![
            row(0x100, 30, "a.s"),
            row(0x108, 4, "a.s"),
            row(0x110, 30, "a.s"),
            row(0x118, 7, "a.s"),
            row(0x120, 0, "a.s"),
            row(0x128, 4, "a.s"),
        ],
    )]);
    assert_eq!(map.get_lines(), vec![0, 4, 7, 30]);
    assert_eq!(sample_map().get_lines(), vec![3, 4, 7]);
}

#[test]
fn the_parts_of_a_path_are_directory_of_the_unit_directory_and_name() {
    let text = |parts: &[&str]| parts.iter().map(|p| p.to_string()).collect::<Vec<String>>();
    let dir = Some("/src".to_string());
    assert_eq!(file_path_parts(&dir, &file(0, None, "a.s")), text(&["/src", "a.s"]));
    assert_eq!(file_path_parts(&dir, &file(0, Some("ignored"), "a.s")), text(&["/src", "a.s"]));
    assert_eq!(file_path_parts(&dir, &file(1, Some("sub"), "a.s")), text(&["/src", "sub", "a.s"]));
    assert_eq!(file_path_parts(&dir, &file(7, None, "a.s")), text(&["/src", "a.s"]));
    assert_eq!(file_path_parts(&None, &file(2, Some("/abs"), "a.s")), text(&["", "/abs", "a.s"]));
    assert_eq!(file_path_parts(&None, &file(0, None, "")), text(&["", ""]));

    // the path is what the standard library makes of the parts
    for (comp_dir, entry) in [
        (dir.clone(), file(1, Some("sub"), "a.s")),
        (dir.clone(), file(2, Some("/abs"), "a.s")),
        (None, file(1, Some("sub/"), "a.s")),
        (Some("rel".to_string()), file(0, None, "a.s")),
    ] {
        let mut by_std = std::path::PathBuf::new();
        for part in file_path_parts(&comp_dir, &entry) {
            by_std.push(part);
        }
        assert_eq!(resolve_path(&comp_dir, &Some(entry)), by_std.to_string_lossy());
    }
}
