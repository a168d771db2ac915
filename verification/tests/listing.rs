use dirsize::entry::{make_file_info, FileInfo};
use dirsize::human::{human_size, size_tier, u64_to_string, SizeTier};
use dirsize::render::{build_table, format_filesize, render_directory_listing};
use dirsize::sizing::sum_regular_sizes;
use dirsize::sorting::{
    order_directory_contents, sort_directory_alphabetically, sort_directory_by_extension,
};

fn file(name: &str, size: u64, disk: u64) -> FileInfo {
    make_file_info(name.to_owned(), false, true, size, disk)
}

fn dir(name: &str, size: u64, disk: u64) -> FileInfo {
    make_file_info(name.to_owned(), true, false, size, disk)
}

fn names(v: &[FileInfo]) -> Vec<String> {
    v.iter().map(|e| e.file_name.clone()).collect()
}

#[test]
fn extension_of_plain_file() {
    let e = file("notes.txt", 10, 10);
    assert_eq!(e.file_extension.as_deref(), Some("txt"));
}

#[test]
fn extension_falls_back_to_whole_name() {
    let e = file("data", 5, 5);
    assert_eq!(e.file_extension.as_deref(), Some("data"));
}

#[test]
fn extension_takes_last_dot() {
    let e = file("archive.tar.gz", 1, 1);
    assert_eq!(e.file_extension.as_deref(), Some("gz"));
}

#[test]
fn extension_of_leading_dot_name_is_whole_name() {
    let e = file(".bashrc", 1, 1);
    assert_eq!(e.file_extension.as_deref(), Some(".bashrc"));
}

#[test]
fn extension_of_trailing_dot_is_empty() {
    let e = file("ends.", 1, 1);
    assert_eq!(e.file_extension.as_deref(), Some(""));
}

#[test]
fn directory_has_no_extension() {
    let e = dir("src.d", 0, 0);
    assert_eq!(e.file_extension, None);
}

#[test]
fn partition_groups_directories_first_and_is_stable() {
    let mut v = vec![
        file("b.txt", 1, 1),
        dir("zeta", 0, 0),
        file("a.txt", 2, 2),
        dir("alpha", 0, 0),
    ];
    sort_directory_by_extension(&mut v);
    assert_eq!(names(&v), vec!["zeta", "alpha", "b.txt", "a.txt"]);
}

#[test]
fn alphabetical_sort_is_case_insensitive() {
    let mut v = vec![dir("Cherry", 0, 0), dir("Banana", 0, 0), dir("apple", 0, 0)];
    sort_directory_alphabetically(&mut v);
    assert_eq!(names(&v), vec!["apple", "Banana", "Cherry"]);
}

#[test]
fn ordering_sorts_directories_and_keeps_file_order() {
    let mut v = vec![
        file("m.txt", 1, 1),
        dir("Banana", 0, 0),
        file("a.txt", 2, 2),
        dir("apple", 0, 0),
        dir("Cherry", 0, 0),
    ];
    order_directory_contents(&mut v);
    assert_eq!(
        names(&v),
        vec!["apple", "Banana", "Cherry", "m.txt", "a.txt"]
    );
}

#[test]
fn ordering_of_files_only_keeps_scan_order() {
    let mut v = vec![file("z.txt", 1, 1), file("a.txt", 2, 2)];
    order_directory_contents(&mut v);
    assert_eq!(names(&v), vec!["z.txt", "a.txt"]);
}

#[test]
fn decimal_rendering() {
    assert_eq!(u64_to_string(0), "0");
    assert_eq!(u64_to_string(7), "7");
    assert_eq!(u64_to_string(12345), "12345");
    assert_eq!(u64_to_string(1000000), "1000000");
}

#[test]
fn human_size_bytes() {
    assert_eq!(human_size(0), "0 B");
    assert_eq!(human_size(15), "15 B");
    assert_eq!(human_size(999), "999 B");
}

#[test]
fn human_size_kilobytes() {
    assert_eq!(human_size(1000), "1 KB");
    assert_eq!(human_size(1500), "1.5 KB");
    assert_eq!(human_size(999999), "999.9 KB");
}

#[test]
fn human_size_larger_units() {
    assert_eq!(human_size(1000000), "1 MB");
    assert_eq!(human_size(1234567), "1.2 MB");
    assert_eq!(human_size(2000000000), "2 GB");
    assert_eq!(human_size(1000000000000), "1 TB");
    assert_eq!(human_size(1000000000000000), "1 PB");
    assert_eq!(human_size(u64::MAX), "18.4 EB");
}

#[test]
fn human_size_order_is_kept() {
    let samples: Vec<u64> = vec![
        0,
        1,
        999,
        1000,
        1001,
        999999,
        1000000,
        500000000,
        999999999,
        1000000000,
        2000000000,
        u64::MAX,
    ];
    // with equal units, the printed digits never decrease with the bytes
    for w in samples.windows(2) {
        let (a, b) = (w[0], w[1]);
        let (fa, fb) = (human_size(a), human_size(b));
        let (ua, ub) = (
            fa.rsplit(' ').next().unwrap().to_owned(),
            fb.rsplit(' ').next().unwrap().to_owned(),
        );
        if ua == ub {
            let va: f64 = fa.split(' ').next().unwrap().parse().unwrap();
            let vb: f64 = fb.split(' ').next().unwrap().parse().unwrap();
            assert!(va <= vb, "{} then {}", fa, fb);
        }
    }
}

#[test]
fn tier_thresholds() {
    assert_eq!(size_tier(0), SizeTier::Normal);
    assert_eq!(size_tier(500000000), SizeTier::Normal);
    assert_eq!(size_tier(500000001), SizeTier::Warning);
    assert_eq!(size_tier(999999999), SizeTier::Warning);
    assert_eq!(size_tier(1000000000), SizeTier::Alert);
    assert_eq!(size_tier(2000000000), SizeTier::Alert);
}

#[test]
fn format_filesize_paints_normal_green() {
    assert_eq!(format_filesize(15), "\u{1b}[38;5;121m15 B\u{1b}[0m");
}

#[test]
fn format_filesize_paints_warning_yellow() {
    assert_eq!(format_filesize(600000000), "\u{1b}[38;5;226m600 MB\u{1b}[0m");
}

#[test]
fn format_filesize_paints_two_gigabytes_alert_red() {
    assert_eq!(format_filesize(2000000000), "\u{1b}[38;5;9m2 GB\u{1b}[0m");
}

#[test]
fn sum_regular_sizes_exact() {
    assert_eq!(sum_regular_sizes(&vec![]), Some(0));
    assert_eq!(
        sum_regular_sizes(&vec![(true, 1), (true, 2), (true, 3)]),
        Some(6)
    );
    assert_eq!(sum_regular_sizes(&vec![(true, u64::MAX)]), Some(u64::MAX));
}

#[test]
fn sum_regular_sizes_skips_directories_and_links() {
    // a walk's directory and link inodes contribute nothing
    let items = vec![(false, 4096), (true, 10), (false, 4096), (true, 5), (false, 77)];
    assert_eq!(sum_regular_sizes(&items), Some(15));
    // an empty directory's walk holds only the directory itself
    assert_eq!(sum_regular_sizes(&vec![(false, 4096)]), Some(0));
}

#[test]
fn sum_regular_sizes_overflow_is_none() {
    assert_eq!(sum_regular_sizes(&vec![(true, u64::MAX), (true, 1)]), None);
    // a non-file entry cannot overflow the sum
    assert_eq!(
        sum_regular_sizes(&vec![(true, u64::MAX), (false, 1)]),
        Some(u64::MAX)
    );
}

#[test]
fn nested_sums_compose_over_three_levels() {
    // innermost directory: itself plus two files
    let inner = sum_regular_sizes(&vec![(false, 4096), (true, 3), (true, 4)]).unwrap();
    // middle directory: both directory inodes, the inner files, one more file
    let middle = sum_regular_sizes(&vec![
        (false, 4096),
        (false, 4096),
        (true, 3),
        (true, 4),
        (true, 10),
    ])
    .unwrap();
    assert_eq!(middle, inner + 10);
    // top directory: everything below plus two files of its own
    let top = sum_regular_sizes(&vec![
        (false, 4096),
        (false, 4096),
        (false, 4096),
        (true, 3),
        (true, 4),
        (true, 10),
        (true, 1),
        (true, 2),
    ])
    .unwrap();
    assert_eq!(top, middle + 3);
    assert_eq!(top, 20);
}

#[test]
fn alphabetical_sort_is_stable_for_equal_folded_names() {
    let mut v = vec![dir("Apple", 1, 1), dir("apple", 2, 2), dir("APPLE", 3, 3)];
    sort_directory_alphabetically(&mut v);
    assert_eq!(names(&v), vec!["Apple", "apple", "APPLE"]);
    assert_eq!(v[0].file_size, 1);
    assert_eq!(v[1].file_size, 2);
    assert_eq!(v[2].file_size, 3);

    let mut w = vec![dir("apple", 2, 2), dir("APPLE", 3, 3), dir("Apple", 1, 1)];
    sort_directory_alphabetically(&mut w);
    assert_eq!(names(&w), vec!["apple", "APPLE", "Apple"]);
}

#[test]
fn allocated_and_logical_are_independent() {
    // sparse file: allocated below logical; block rounding: allocated above
    let v = vec![file("sparse.img", 100, 8), file("tiny.txt", 1, 4096)];
    let t = build_table(&v).unwrap();
    assert_eq!(t.total_size, 101);
    assert_eq!(t.total_disk_size, 4104);
}

#[test]
fn rows_match_entry_count() {
    for n in 0..5u64 {
        let v: Vec<FileInfo> = (0..n).map(|i| file(&format!("f{}.txt", i), i, i)).collect();
        let t = build_table(&v).unwrap();
        assert_eq!(t.rows.len(), v.len());
    }
}

#[test]
fn row_cells_hold_index_name_extension_kind_and_sizes() {
    let v = vec![dir("sub", 30, 30), file("notes.txt", 10, 20)];
    let t = build_table(&v).unwrap();
    assert_eq!(
        t.rows[0],
        vec![
            "1".to_owned(),
            "sub".to_owned(),
            "-".to_owned(),
            "Dir".to_owned(),
            format_filesize(30),
            format_filesize(30),
        ]
    );
    assert_eq!(t.rows[1][0], "2");
    assert_eq!(t.rows[1][1], "notes.txt");
    assert_eq!(t.rows[1][2], "txt");
    assert_eq!(t.rows[1][3], "File");
    assert_eq!(t.rows[1][4], format_filesize(10));
    assert_eq!(t.rows[1][5], format_filesize(20));
}

#[test]
fn grand_total_is_exact_sum_of_rows() {
    let v = vec![
        file("a.txt", 7, 8),
        dir("sub", 1000000, 999999),
        file("b", 35, 12),
    ];
    let t = build_table(&v).unwrap();
    assert_eq!(t.total_size, 7 + 1000000 + 35);
    assert_eq!(t.total_disk_size, 8 + 999999 + 12);
}

#[test]
fn total_overflow_yields_none() {
    let v = vec![file("a", u64::MAX, 1), file("b", 1, 1)];
    assert!(build_table(&v).is_none());
    assert!(render_directory_listing(&v).is_none());
}

#[test]
fn end_to_end_three_entries() {
    let mut v = vec![
        file("notes.txt", 10, 10),
        dir("empty", 0, 0),
        file("data", 5, 5),
    ];
    order_directory_contents(&mut v);
    assert_eq!(names(&v), vec!["empty", "notes.txt", "data"]);
    let t = build_table(&v).unwrap();
    assert_eq!(t.rows.len(), 3);
    assert_eq!(t.rows[1][2], "txt");
    // the documented fallback: a file without a dot shows its whole name
    assert_eq!(t.rows[2][2], "data");
    assert_eq!(t.total_size, 15);
    assert_eq!(human_size(t.total_size), "15 B");
    let l = render_directory_listing(&v).unwrap();
    assert_eq!(l.total_size, 15);
    assert_eq!(l.total_disk_size, 15);
    assert!(l.table.contains("File Name"));
    assert!(l.table.contains("notes.txt"));
    assert!(l.table.contains("empty"));
}

#[test]
fn rendered_table_is_not_the_input_text() {
    let v = vec![file("only.txt", 1, 1)];
    let l = render_directory_listing(&v).unwrap();
    // a bordered table, not the bare cell texts
    assert!(l.table.len() > "only.txt".len());
    assert!(l.table.contains("File Extension"));
    assert!(l.table.contains("only.txt"));
}
