//! Rendering of the ordered entry sequence: one row of cells per entry,
//! color-coded size cells, exact grand totals, and the bordered table.

use vstd::prelude::*;

use cli_table::{Cell, ColorChoice, Style, Table};
use cli_table::format::Justify;
use colorful::{Color, Colorful};

use crate::entry::FileInfo;
use crate::human::{
    human_size, size_tier, spec_dec, spec_human_size, spec_size_tier, u64_to_string, SizeTier,
};

verus! {

/// The 256-color code that each tier is painted with.
pub open spec fn spec_color_code(t: SizeTier) -> Seq<char> {
    match t {
        SizeTier::Alert => "9"@,
        SizeTier::Warning => "226"@,
        SizeTier::Normal => "121"@,
    }
}

/// The escape sequence that starts a painted cell.
pub open spec fn spec_paint_prefix(t: SizeTier) -> Seq<char> {
    "\u{1b}[38;5;"@ + spec_color_code(t) + "m"@
}

/// The escape sequence that ends a painted cell.
pub open spec fn spec_reset() -> Seq<char> {
    "\u{1b}[0m"@
}

/// Relies on colorful 0.3: `Colorful::color` on `&str` builds a `CString`
/// with a simple-mode foreground color, whose `Display` renders as
/// `ESC[38;5;` + code + `m`, the text, then `ESC[0m`; the codes of
/// `LightRed`, `Yellow1` and `PaleGreen1a` are 9, 226 and 121.
#[verifier::external_body]
fn paint(s: &str, tier: SizeTier) -> (r: String)
    ensures
        r@ == spec_paint_prefix(tier) + s@ + spec_reset(),
{
    let color = match tier {
        SizeTier::Alert => Color::LightRed,
        SizeTier::Warning => Color::Yellow1,
        SizeTier::Normal => Color::PaleGreen1a,
    };
    format!("{}", s.color(color))
}

/// A size cell: the human-readable size, painted in its tier's color.
pub open spec fn spec_format_filesize(n: u64) -> Seq<char> {
    spec_paint_prefix(spec_size_tier(n)) + spec_human_size(n) + spec_reset()
}

/// Formats a byte count as its painted human-readable cell.
pub fn format_filesize(filesize: u64) -> (r: String)
    ensures
        r@ == spec_format_filesize(filesize),
{
    let h = human_size(filesize);
    let t = size_tier(filesize);
    paint(h.as_str(), t)
}

/// The extension column: the recorded extension, `-` when there is none.
pub open spec fn spec_extension_cell(e: FileInfo) -> Seq<char> {
    match e.file_extension {
        Some(s) => s@,
        None => "-"@,
    }
}

/// The kind column: `Dir` for directories, `File` for everything else.
pub open spec fn spec_kind_label(is_directory: bool) -> Seq<char> {
    if is_directory {
        "Dir"@
    } else {
        "File"@
    }
}

fn extension_cell(e: &FileInfo) -> (r: String)
    ensures
        r@ == spec_extension_cell(*e),
{
    match &e.file_extension {
        Some(s) => s.clone(),
        None => "-".to_owned(),
    }
}

/// The row of cells for entry `e` at 1-based position `idx`.
pub open spec fn spec_row(e: FileInfo, idx: nat) -> Seq<Seq<char>> {
    seq![
        spec_dec(idx),
        e.file_name@,
        spec_extension_cell(e),
        spec_kind_label(e.file_is_directory),
        spec_format_filesize(e.file_size),
        spec_format_filesize(e.file_disk_size),
    ]
}

/// The rows for a whole entry sequence, numbered from 1.
pub open spec fn spec_rows(s: Seq<FileInfo>) -> Seq<Seq<Seq<char>>> {
    Seq::new(s.len(), |i: int| spec_row(s[i], (i + 1) as nat))
}

/// The table's title row.
pub open spec fn spec_titles() -> Seq<Seq<char>> {
    seq![
        "No."@,
        "File Name"@,
        "File Extension"@,
        "File Type"@,
        "File Size"@,
        "File Disk Size"@,
    ]
}

/// Builds the row of cells for one entry.
pub fn build_row(e: &FileInfo, idx: u64) -> (r: Vec<String>)
    ensures
        r.deep_view() == spec_row(*e, idx as nat),
{
    let mut row: Vec<String> = Vec::new();
    row.push(u64_to_string(idx));
    row.push(e.file_name.clone());
    row.push(extension_cell(e));
    if e.file_is_directory {
        row.push("Dir".to_owned());
    } else {
        row.push("File".to_owned());
    }
    row.push(format_filesize(e.file_size));
    row.push(format_filesize(e.file_disk_size));
    proof {
        assert(row.deep_view() =~= spec_row(*e, idx as nat));
    }
    row
}

/// The sum of the logical sizes of a sequence of entries.
pub open spec fn spec_total_logical(s: Seq<FileInfo>) -> int
    decreases s.len(),
{
    if s.len() == 0 {
        0
    } else {
        spec_total_logical(s.drop_last()) + s.last().file_size
    }
}

/// The sum of the allocated sizes of a sequence of entries.
pub open spec fn spec_total_allocated(s: Seq<FileInfo>) -> int
    decreases s.len(),
{
    if s.len() == 0 {
        0
    } else {
        spec_total_allocated(s.drop_last()) + s.last().file_disk_size
    }
}

/// Both running totals are non-negative and never exceed the totals of
/// the whole sequence.
pub proof fn lemma_totals_prefix(s: Seq<FileInfo>, j: int)
    requires
        0 <= j <= s.len(),
    ensures
        0 <= spec_total_logical(s.subrange(0, j)) <= spec_total_logical(s),
        0 <= spec_total_allocated(s.subrange(0, j)) <= spec_total_allocated(s),
    decreases s.len() - j,
{
    if j == s.len() {
        assert(s.subrange(0, j) =~= s);
        lemma_totals_nonneg(s);
    } else {
        lemma_totals_prefix(s, j + 1);
        lemma_totals_nonneg(s.subrange(0, j));
        assert(s.subrange(0, j + 1).drop_last() =~= s.subrange(0, j));
        assert(s.subrange(0, j + 1).last() == s[j]);
        assert(spec_total_logical(s.subrange(0, j + 1)) == spec_total_logical(s.subrange(0, j))
            + s[j].file_size);
        assert(spec_total_allocated(s.subrange(0, j + 1)) == spec_total_allocated(
            s.subrange(0, j),
        ) + s[j].file_disk_size);
    }
}

/// Entry size totals are never negative.
pub proof fn lemma_totals_nonneg(s: Seq<FileInfo>)
    ensures
        spec_total_logical(s) >= 0,
        spec_total_allocated(s) >= 0,
    decreases s.len(),
{
    if s.len() > 0 {
        lemma_totals_nonneg(s.drop_last());
    }
}

/// The rows of the rendered table together with the exact grand totals.
pub struct TableRows {
    pub rows: Vec<Vec<String>>,
    pub total_size: u64,
    pub total_disk_size: u64,
}

/// Builds one row per entry, in order, and the exact grand totals of the
/// logical and the allocated sizes; `None` exactly when a total does not
/// fit in 64 bits.
pub fn build_table(entries: &Vec<FileInfo>) -> (r: Option<TableRows>)
    ensures
        r is Some <==> (spec_total_logical(entries@) <= u64::MAX && spec_total_allocated(
            entries@,
        ) <= u64::MAX),
        r matches Some(t) ==> {
            &&& t.rows.deep_view() == spec_rows(entries@)
            &&& t.rows@.len() == entries@.len()
            &&& t.total_size as int == spec_total_logical(entries@)
            &&& t.total_disk_size as int == spec_total_allocated(entries@)
        },
{
    let mut rows: Vec<Vec<String>> = Vec::new();
    let mut total_size: u64 = 0;
    let mut total_disk_size: u64 = 0;
    let mut i: usize = 0;
    proof {
        assert(entries@.subrange(0, 0) =~= Seq::<FileInfo>::empty());
    }
    while i < entries.len()
        invariant
            i <= entries@.len(),
            rows@.len() == i,
            forall|p: int|
                0 <= p < i ==> (#[trigger] rows@[p]).deep_view() == spec_row(
                    entries@[p],
                    (p + 1) as nat,
                ),
            total_size as int == spec_total_logical(entries@.subrange(0, i as int)),
            total_disk_size as int == spec_total_allocated(entries@.subrange(0, i as int)),
        decreases entries@.len() - i,
    {
        proof {
            assert(entries@.subrange(0, i + 1).drop_last() =~= entries@.subrange(0, i as int));
            assert(entries@.subrange(0, i + 1).last() == entries@[i as int]);
        }
        let e = &entries[i];
        if e.file_size > u64::MAX - total_size {
            proof {
                lemma_totals_prefix(entries@, i + 1);
            }
            return None;
        }
        if e.file_disk_size > u64::MAX - total_disk_size {
            proof {
                lemma_totals_prefix(entries@, i + 1);
            }
            return None;
        }
        total_size = total_size + e.file_size;
        total_disk_size = total_disk_size + e.file_disk_size;
        rows.push(build_row(e, (i as u64) + 1));
        i = i + 1;
    }
    proof {
        assert(entries@.subrange(0, entries@.len() as int) =~= entries@);
        assert(rows.deep_view() =~= spec_rows(entries@)) by {
            assert forall|p: int| 0 <= p < rows@.len() implies rows.deep_view()[p] == spec_rows(
                entries@,
            )[p] by {
                assert(rows.deep_view()[p] == rows@[p].deep_view());
            }
        }
    }
    Some(TableRows { rows, total_size, total_disk_size })
}

/// What cli_table renders for a title row and data rows.
pub uninterp spec fn table_text_of(titles: Seq<Seq<char>>, rows: Seq<Seq<Seq<char>>>) -> Seq<char>;

/// Relies on cli_table 0.5: `Cell::cell`, `CellStruct::justify` and
/// `Style::bold` build the styled cells (bold title row, name column
/// left-justified, every other column centered), `Table::table`,
/// `TableStruct::title` and `TableStruct::color_choice` the table, and
/// `TableStruct::display` renders it into a buffered string
/// (`TableDisplay`, printed via `Display`). With `ColorChoice::AlwaysAnsi`
/// the styling is plain ANSI escapes on every platform, nothing reads the
/// terminal or the environment, and the rendered text is computed from
/// the cell texts alone.
#[verifier::external_body]
fn table_to_string(titles: &Vec<String>, rows: &Vec<Vec<String>>) -> (r: String)
    ensures
        r@ == table_text_of(titles.deep_view(), rows.deep_view()),
{
    let title_cells: Vec<cli_table::CellStruct> =
        titles.iter().map(|t| t.clone().cell().bold(true).justify(Justify::Center)).collect();
    let data: Vec<Vec<cli_table::CellStruct>> = rows.iter().map(
        |r| r.iter().enumerate().map(
            |(i, c)| c.clone().cell().justify(if i == 1 { Justify::Left } else { Justify::Center }),
        ).collect(),
    ).collect();
    match data.table().title(title_cells).color_choice(ColorChoice::AlwaysAnsi).display() {
        Ok(d) => d.to_string(),
        Err(_) => String::new(),
    }
}

/// A fully rendered listing: the bordered table and the grand totals.
pub struct Listing {
    pub table: String,
    pub total_size: u64,
    pub total_disk_size: u64,
}

/// Renders the ordered entries as the final table plus exact totals;
/// `None` exactly when a grand total does not fit in 64 bits.
pub fn render_directory_listing(entries: &Vec<FileInfo>) -> (r: Option<Listing>)
    ensures
        r is Some <==> (spec_total_logical(entries@) <= u64::MAX && spec_total_allocated(
            entries@,
        ) <= u64::MAX),
        r matches Some(l) ==> {
            &&& l.table@ == table_text_of(spec_titles(), spec_rows(entries@))
            &&& l.total_size as int == spec_total_logical(entries@)
            &&& l.total_disk_size as int == spec_total_allocated(entries@)
        },
{
    match build_table(entries) {
        None => None,
        Some(t) => {
            let mut titles: Vec<String> = Vec::new();
            titles.push("No.".to_owned());
            titles.push("File Name".to_owned());
            titles.push("File Extension".to_owned());
            titles.push("File Type".to_owned());
            titles.push("File Size".to_owned());
            titles.push("File Disk Size".to_owned());
            proof {
                assert(titles.deep_view() =~= spec_titles());
            }
            let table = table_to_string(&titles, &t.rows);
            Some(
                Listing {
                    table,
                    total_size: t.total_size,
                    total_disk_size: t.total_disk_size,
                },
            )
        },
    }
}

} // verus!
