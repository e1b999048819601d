//! Tables of text, drawn by `comfy_table`.
use vstd::prelude::*;
use vstd::string::*;
use comfy_table::modifiers::UTF8_ROUND_CORNERS;
use comfy_table::presets::{ASCII_FULL_CONDENSED, UTF8_FULL_CONDENSED};
use comfy_table::{Cell, CellAlignment, Table};

verus! {

/// A table: its border style, its header and its rows.
#[verifier::external_type_specification]
#[verifier::external_body]
pub struct ExTable(comfy_table::Table);

/// A cell: its text and its alignment.
#[verifier::external_type_specification]
#[verifier::external_body]
pub struct ExCell(comfy_table::Cell);

/// The border styles in use.
#[derive(Clone, Copy, Debug, PartialEq, Eq, Structural)]
pub enum TablePreset {
    /// What a new table has.
    AsciiFull,
    AsciiFullCondensed,
    Utf8FullCondensed,
}

/// The text of a cell, and whether it is aligned to the right.
pub uninterp spec fn cell_shown(cell: Cell) -> (Seq<char>, bool);

/// A cell that has nothing but its text and, perhaps, an alignment to the right: no
/// colour, attribute or delimiter of its own, and no other alignment.
pub uninterp spec fn cell_plain(cell: Cell) -> bool;

/// A table that has nothing but one of the border styles, its header and its rows,
/// all of plain cells: as many columns as the longest of those rows, and no width,
/// arrangement, delimiter, truncation mark, column setting or row setting of its own.
pub uninterp spec fn table_plain(table: Table) -> bool;

/// The border style of a table.
pub uninterp spec fn table_preset(table: Table) -> TablePreset;

/// Whether the corners of a table are round.
pub uninterp spec fn table_rounded(table: Table) -> bool;

/// The header of a table, where it has one.
pub uninterp spec fn table_header(table: Table) -> Option<Seq<(Seq<char>, bool)>>;

/// The rows of a table, from the top.
pub uninterp spec fn table_rows(table: Table) -> Seq<Seq<(Seq<char>, bool)>>;

/// The drawing of a plain table.
pub uninterp spec fn drawn_table(
    preset: TablePreset,
    rounded: bool,
    header: Option<Seq<(Seq<char>, bool)>>,
    rows: Seq<Seq<(Seq<char>, bool)>>,
) -> Seq<char>;

/// Every cell of a row is plain.
pub open spec fn all_plain(cells: Seq<Cell>) -> bool {
    forall|i: int| 0 <= i < cells.len() ==> cell_plain(#[trigger] cells[i])
}

/// What a row of cells shows.
pub open spec fn row_shown(cells: Seq<Cell>) -> Seq<(Seq<char>, bool)> {
    cells.map_values(|cell: Cell| cell_shown(cell))
}

/// A cell aligned to the left.
pub open spec fn left(text: Seq<char>) -> (Seq<char>, bool) {
    (text, false)
}

/// A cell aligned to the right.
pub open spec fn right(text: Seq<char>) -> (Seq<char>, bool) {
    (text, true)
}

/// `comfy_table::Cell::new`: a cell with this text and no alignment of its own,
/// which draws to the left.
#[verifier::external_body]
fn plain_cell(text: String) -> (cell: Cell)
    ensures
        cell_plain(cell),
        cell_shown(cell) == left(text@),
{
    Cell::new(text)
}

/// `comfy_table::Cell::set_alignment` with `CellAlignment::Right`: the same text,
/// aligned to the right.
#[verifier::external_body]
fn align_right(cell: Cell) -> (aligned: Cell)
    ensures
        cell_plain(cell) ==> cell_plain(aligned),
        cell_shown(aligned) == right(cell_shown(cell).0),
{
    cell.set_alignment(CellAlignment::Right)
}

/// `comfy_table::Table::new`: no header, no rows, full ASCII borders.
#[verifier::external_body]
fn bare_table() -> (table: Table)
    ensures
        table_plain(table),
        table_preset(table) == TablePreset::AsciiFull,
        !table_rounded(table),
        table_header(table) is None,
        table_rows(table).len() == 0,
{
    Table::new()
}

/// `comfy_table::Table::load_preset` with a preset that names every component:
/// replaces the border style, corners and all, and leaves the contents alone.
#[verifier::external_body]
fn load_preset(table: &mut Table, preset: TablePreset)
    requires
        preset != TablePreset::AsciiFull,
    ensures
        table_plain(*old(table)) ==> table_plain(*final(table)),
        table_preset(*final(table)) == preset,
        !table_rounded(*final(table)),
        table_header(*final(table)) == table_header(*old(table)),
        table_rows(*final(table)) == table_rows(*old(table)),
{
    table.load_preset(
        match preset {
            TablePreset::Utf8FullCondensed => UTF8_FULL_CONDENSED,
            _ => ASCII_FULL_CONDENSED,
        },
    );
}

/// `comfy_table::Table::apply_modifier` with `UTF8_ROUND_CORNERS`: replaces the
/// corners and leaves the other borders and the contents alone.
#[verifier::external_body]
fn round_corners(table: &mut Table)
    ensures
        table_plain(*old(table)) ==> table_plain(*final(table)),
        table_preset(*final(table)) == table_preset(*old(table)),
        table_rounded(*final(table)),
        table_header(*final(table)) == table_header(*old(table)),
        table_rows(*final(table)) == table_rows(*old(table)),
{
    table.apply_modifier(UTF8_ROUND_CORNERS);
}

/// `comfy_table::Table::set_header` on a table without a header: these cells become
/// the header, and there are columns for all of them. The columns of an earlier,
/// longer header would stay, so there must be none.
#[verifier::external_body]
fn set_header(table: &mut Table, cells: Vec<Cell>)
    requires
        table_header(*old(table)) is None,
        all_plain(cells@),
    ensures
        table_plain(*old(table)) ==> table_plain(*final(table)),
        table_preset(*final(table)) == table_preset(*old(table)),
        table_rounded(*final(table)) == table_rounded(*old(table)),
        table_header(*final(table)) == Some(row_shown(cells@)),
        table_rows(*final(table)) == table_rows(*old(table)),
{
    table.set_header(cells);
}

/// `comfy_table::Table::add_row`: these cells become the last row, and there are
/// columns for all of them.
#[verifier::external_body]
fn add_row(table: &mut Table, cells: Vec<Cell>)
    requires
        all_plain(cells@),
    ensures
        table_plain(*old(table)) ==> table_plain(*final(table)),
        table_preset(*final(table)) == table_preset(*old(table)),
        table_rounded(*final(table)) == table_rounded(*old(table)),
        table_header(*final(table)) == table_header(*old(table)),
        table_rows(*final(table)) == table_rows(*old(table)).push(row_shown(cells@)),
{
    table.add_row(cells);
}

/// `<comfy_table::Table as ToString>::to_string`: the drawing of a plain table follows
/// from the border style, the header and the rows. What it looks like is not stated.
#[verifier::external_body]
fn draw(table: &Table) -> (text: String)
    requires
        table_plain(*table),
    ensures
        text@ == drawn_table(
            table_preset(*table),
            table_rounded(*table),
            table_header(*table),
            table_rows(*table),
        ),
{
    table.to_string()
}

/// The border style for a terminal, or for anything else.
pub open spec fn preset_for(terminal: bool) -> TablePreset {
    if terminal {
        TablePreset::Utf8FullCondensed
    } else {
        TablePreset::AsciiFullCondensed
    }
}

/// A plain table with these contents, in the style for a terminal or for anything else.
pub open spec fn shows(
    table: Table,
    terminal: bool,
    header: Option<Seq<(Seq<char>, bool)>>,
    rows: Seq<Seq<(Seq<char>, bool)>>,
) -> bool {
    &&& table_plain(table)
    &&& table_preset(table) == preset_for(terminal)
    &&& table_rounded(table) == terminal
    &&& table_header(table) == header
    &&& table_rows(table) == rows
}

/// What such a table is drawn as.
pub open spec fn drawn(
    terminal: bool,
    header: Option<Seq<(Seq<char>, bool)>>,
    rows: Seq<Seq<(Seq<char>, bool)>>,
) -> Seq<char> {
    drawn_table(preset_for(terminal), terminal, header, rows)
}

/// An empty table. A terminal gets line-drawing characters and round corners.
pub fn new_table(terminal: bool) -> (table: Table)
    ensures
        shows(table, terminal, None, Seq::empty()),
{
    let mut table = bare_table();
    if terminal {
        load_preset(&mut table, TablePreset::Utf8FullCondensed);
        round_corners(&mut table);
    } else {
        load_preset(&mut table, TablePreset::AsciiFullCondensed);
    }
    assert(table_rows(table) =~= Seq::empty());
    table
}

pub fn key_cell(label: &str) -> (cell: Cell)
    ensures
        cell_plain(cell),
        cell_shown(cell) == left(label@),
{
    plain_cell(String::from_str(label))
}

pub fn value_cell(value: String) -> (cell: Cell)
    ensures
        cell_plain(cell),
        cell_shown(cell) == left(value@),
{
    plain_cell(value)
}

pub fn numeric_cell(value: String) -> (cell: Cell)
    ensures
        cell_plain(cell),
        cell_shown(cell) == right(value@),
{
    align_right(plain_cell(value))
}

/// Adds a row that holds a label and a text.
pub fn add_text(table: &mut Table, label: &str, value: String)
    ensures
        table_plain(*old(table)) ==> table_plain(*final(table)),
        table_preset(*final(table)) == table_preset(*old(table)),
        table_rounded(*final(table)) == table_rounded(*old(table)),
        table_header(*final(table)) == table_header(*old(table)),
        table_rows(*final(table)) == table_rows(*old(table)).push(
            seq![left(label@), left(value@)],
        ),
{
    let cells = vec![key_cell(label), value_cell(value)];
    assert(row_shown(cells@) =~= seq![left(label@), left(value@)]);
    add_row(table, cells);
}

/// Adds a row that holds a label and a number.
pub fn add_number(table: &mut Table, label: &str, value: String)
    ensures
        table_plain(*old(table)) ==> table_plain(*final(table)),
        table_preset(*final(table)) == table_preset(*old(table)),
        table_rounded(*final(table)) == table_rounded(*old(table)),
        table_header(*final(table)) == table_header(*old(table)),
        table_rows(*final(table)) == table_rows(*old(table)).push(
            seq![left(label@), right(value@)],
        ),
{
    let cells = vec![key_cell(label), numeric_cell(value)];
    assert(row_shown(cells@) =~= seq![left(label@), right(value@)]);
    add_row(table, cells);
}

/// A header row over these texts, all of them aligned to the right but perhaps
/// the first.
pub open spec fn header_of(labels: Seq<Seq<char>>, first_left: bool) -> Seq<(Seq<char>, bool)> {
    labels.map(|i: int, label: Seq<char>| (label, !(first_left && i == 0)))
}

/// The views of some texts.
pub open spec fn views(texts: Seq<&str>) -> Seq<Seq<char>> {
    texts.map_values(|t: &str| t@)
}

/// Gives a table its header. A table gets one only once.
pub fn set_labels(table: &mut Table, labels: &[&str], first_left: bool)
    requires
        table_header(*old(table)) is None,
    ensures
        table_plain(*old(table)) ==> table_plain(*final(table)),
        table_preset(*final(table)) == table_preset(*old(table)),
        table_rounded(*final(table)) == table_rounded(*old(table)),
        table_header(*final(table)) == Some(header_of(views(labels@), first_left)),
        table_rows(*final(table)) == table_rows(*old(table)),
{
    let mut cells: Vec<Cell> = Vec::new();
    let mut i: usize = 0;
    while i < labels.len()
        invariant
            i <= labels.len(),
            cells@.len() == i,
            all_plain(cells@),
            forall|k: int|
                0 <= k < i ==> cell_shown(#[trigger] cells@[k]) == (
                    labels@[k]@,
                    !(first_left && k == 0),
                ),
        decreases labels.len() - i,
    {
        if first_left && i == 0 {
            cells.push(key_cell(labels[i]));
        } else {
            cells.push(numeric_cell(String::from_str(labels[i])));
        }
        i = i + 1;
    }
    assert(row_shown(cells@) =~= header_of(views(labels@), first_left));
    set_header(table, cells);
}

/// Adds a row whose cells are all numbers but perhaps the first.
pub fn add_cells(table: &mut Table, texts: Vec<String>, first_left: bool)
    ensures
        table_plain(*old(table)) ==> table_plain(*final(table)),
        table_preset(*final(table)) == table_preset(*old(table)),
        table_rounded(*final(table)) == table_rounded(*old(table)),
        table_header(*final(table)) == table_header(*old(table)),
        table_rows(*final(table)) == table_rows(*old(table)).push(
            header_of(texts@.map_values(|t: String| t@), first_left),
        ),
{
    let ghost all = texts@;
    let mut cells: Vec<Cell> = Vec::new();
    for text in it: texts
        invariant
            it.seq() == all,
            cells@.len() == it.index(),
            all_plain(cells@),
            forall|k: int|
                0 <= k < it.index() ==> cell_shown(#[trigger] cells@[k]) == (
                    all[k]@,
                    !(first_left && k == 0),
                ),
    {
        if first_left && cells.len() == 0 {
            cells.push(value_cell(text));
        } else {
            cells.push(numeric_cell(text));
        }
    }
    assert(row_shown(cells@) =~= header_of(all.map_values(|t: String| t@), first_left));
    add_row(table, cells);
}

/// Appends the drawing of a plain table and a line break.
pub fn push_table(out: &mut String, table: &Table)
    requires
        table_plain(*table),
    ensures
        final(out)@ == old(out)@ + drawn_table(
            table_preset(*table),
            table_rounded(*table),
            table_header(*table),
            table_rows(*table),
        ) + "\n"@,
{
    let text = draw(table);
    out.append(text.as_str());
    out.append("\n");
}

/// A header keeps its texts in order, and aligns all of them to the right but, where that
/// is asked for, the first.
pub proof fn lemma_header_keeps_its_texts(labels: Seq<Seq<char>>, first_left: bool, i: int)
    requires
        0 <= i < labels.len(),
    ensures
        header_of(labels, first_left).len() == labels.len(),
        header_of(labels, first_left)[i].0 == labels[i],
        header_of(labels, first_left)[i].1 <==> !first_left || i > 0,
{
}

/// A terminal gets line-drawing characters and round corners, and nothing else does.
pub proof fn lemma_style_follows_the_terminal(
    table: Table,
    terminal: bool,
    header: Option<Seq<(Seq<char>, bool)>>,
    rows: Seq<Seq<(Seq<char>, bool)>>,
)
    requires
        shows(table, terminal, header, rows),
    ensures
        terminal <==> table_preset(table) == TablePreset::Utf8FullCondensed,
        !terminal <==> table_preset(table) == TablePreset::AsciiFullCondensed,
        terminal <==> table_rounded(table),
{
}

} // verus!
