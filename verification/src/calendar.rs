//! The grid: from coloured cells to quests.
//!
//! The first row of a grid names the days, one cell for each, a cell that spans
//! several columns standing for the same day in each of them. Every later row
//! starts with a time of day; each of its other cells whose colour the legend knows
//! is one run of that colour's event, on the day of its column.

use crate::clock::{
    local_instants, parse_date, parse_time, parsed_date, parsed_time, resolution, resolve,
    start_instant, Resolved, DATE_FORMAT, SOURCE_ZONE, TIME_FORMAT,
};
use crate::color::{background_of, color_key, declared_color, normalize};
use crate::legend::ColorMap;
use crate::quest::{models, Quest, QuestModel};
use crate::table::{Cell, CellModel, Row, Table, TableModel};
use crate::text::{decimal, decimal_text, parse_decimal, parse_unsigned};
use vstd::prelude::*;

verus! {

/// The text of a column's date with the year put before it.
pub open spec fn dated_text(year: int, text: Seq<char>) -> Seq<char> {
    decimal(year) + seq!['/'] + text
}

/// The day that a cell of the first row names, in the year `year`; `None` where its
/// text is no month and day.
pub open spec fn column_date(cell: CellModel, year: int) -> Option<(i32, u32, u32)> {
    parsed_date(dated_text(year, cell.text), DATE_FORMAT@)
}

/// The number of columns that a cell of the first row spans: what its `colspan`
/// attribute says, and 1 where it has none or the attribute is no number.
pub open spec fn column_span(cell: CellModel) -> int {
    match cell.colspan {
        Some(text) => match parse_unsigned(text, usize::MAX as int) {
            Some(n) => n,
            None => 1,
        },
        None => 1,
    }
}

/// The days of the columns that `cells` head, from left to right: each cell that
/// names a day gives that day once for every column it spans, and a cell that names
/// none gives nothing.
pub open spec fn header_dates(cells: Seq<CellModel>, year: int) -> Seq<(i32, u32, u32)>
    decreases cells.len(),
{
    if cells.len() == 0 {
        Seq::empty()
    } else {
        let before = header_dates(cells.drop_last(), year);
        match column_date(cells.last(), year) {
            Some(date) => before + Seq::new(column_span(cells.last()) as nat, |i: int| date),
            None => before,
        }
    }
}

/// The days of a grid's columns, read from its first row without that row's first
/// cell, which heads the column of the times.
pub open spec fn column_dates(header: Seq<CellModel>, year: int) -> Seq<(i32, u32, u32)> {
    if header.len() == 0 {
        Seq::empty()
    } else {
        header_dates(header.subrange(1, header.len() as int), year)
    }
}

/// Why a cell of the grid gives no quest.
#[derive(Debug, Clone, Copy, PartialEq, Eq, Structural)]
pub enum CellMiss {
    /// The cell declares no background colour.
    NoColor,
    /// The legend does not know the cell's colour.
    UnknownColor,
    /// The first row names no day for the cell's column.
    NoDay,
    /// The clocks of the zone went forward over the cell's day and time.
    Gap,
    /// The clocks of the zone went back over the cell's day and time.
    Fold,
    /// The zone is not known, or the column's day or the row's time does not exist.
    NoLocalTime,
}

/// The colour of a cell in normal form; `None` where the cell declares no background
/// colour.
pub open spec fn cell_key(cell: CellModel) -> Option<Seq<char>> {
    match cell.style {
        Some(style) => match declared_color(style) {
            Some(css) => Some(color_key(css)),
            None => None,
        },
        None => None,
    }
}

/// The label of the event that a cell's colour stands for; `None` where the cell
/// declares no background colour, or the legend does not know the colour.
pub open spec fn cell_label(cell: CellModel, legend: Map<Seq<char>, Seq<char>>) -> Option<
    Seq<char>,
> {
    match cell_key(cell) {
        Some(key) => if legend.contains_key(key) {
            Some(legend[key])
        } else {
            None
        },
        None => None,
    }
}

/// What the cell in column `index` of a row for the time `time` comes to: the quest
/// of its colour on the day of its column, or the first thing that is missing for
/// one, looking for the colour, then the label, then the day, then the instant.
pub open spec fn cell_outcome(
    cell: CellModel,
    index: int,
    dates: Seq<(i32, u32, u32)>,
    time: (u32, u32, u32),
    legend: Map<Seq<char>, Seq<char>>,
    zone: Seq<char>,
) -> Result<QuestModel, CellMiss> {
    match cell_key(cell) {
        None => Err(CellMiss::NoColor),
        Some(key) => if !legend.contains_key(key) {
            Err(CellMiss::UnknownColor)
        } else if !(0 <= index < dates.len()) {
            Err(CellMiss::NoDay)
        } else {
            match resolution(local_instants(zone, dates[index], time)) {
                Resolved::Single(at) => Ok(
                    QuestModel { start_time: at as int, name: legend[key] },
                ),
                Resolved::Gap => Err(CellMiss::Gap),
                Resolved::Fold => Err(CellMiss::Fold),
                Resolved::Invalid => Err(CellMiss::NoLocalTime),
            }
        },
    }
}

/// The quest that the cell in column `index` of a row for the time `time` stands for.
/// There is none where the cell has no label, where no day is known for the column,
/// or where the day and the time are no single instant in `zone`.
pub open spec fn cell_event(
    cell: CellModel,
    index: int,
    dates: Seq<(i32, u32, u32)>,
    time: (u32, u32, u32),
    legend: Map<Seq<char>, Seq<char>>,
    zone: Seq<char>,
) -> Option<QuestModel> {
    match cell_outcome(cell, index, dates, time, legend, zone) {
        Ok(quest) => Some(quest),
        Err(_) => None,
    }
}

/// The quests of the first `upto` cells of `cells`, the cells of a row after its
/// time, from left to right.
pub open spec fn cells_events(
    cells: Seq<CellModel>,
    upto: int,
    dates: Seq<(i32, u32, u32)>,
    time: (u32, u32, u32),
    legend: Map<Seq<char>, Seq<char>>,
    zone: Seq<char>,
) -> Seq<QuestModel>
    decreases upto,
{
    if upto <= 0 {
        Seq::empty()
    } else {
        let before = cells_events(cells, upto - 1, dates, time, legend, zone);
        match cell_event(cells[upto - 1], upto - 1, dates, time, legend, zone) {
            Some(quest) => before.push(quest),
            None => before,
        }
    }
}

/// The time of day that a row is for; `None` for a row without cells, or whose first
/// cell is no time on the twelve-hour clock.
pub open spec fn row_time(row: Seq<CellModel>) -> Option<(u32, u32, u32)> {
    if row.len() == 0 {
        None
    } else {
        parsed_time(row[0].text, TIME_FORMAT@)
    }
}

/// The quests of one row; none where the row is for no time.
pub open spec fn row_events(
    row: Seq<CellModel>,
    dates: Seq<(i32, u32, u32)>,
    legend: Map<Seq<char>, Seq<char>>,
    zone: Seq<char>,
) -> Seq<QuestModel> {
    match row_time(row) {
        Some(time) => cells_events(
            row.subrange(1, row.len() as int),
            row.len() - 1,
            dates,
            time,
            legend,
            zone,
        ),
        None => Seq::empty(),
    }
}

/// The quests of the rows `rows`, from top to bottom.
pub open spec fn rows_events(
    rows: Seq<Seq<CellModel>>,
    dates: Seq<(i32, u32, u32)>,
    legend: Map<Seq<char>, Seq<char>>,
    zone: Seq<char>,
) -> Seq<QuestModel>
    decreases rows.len(),
{
    if rows.len() == 0 {
        Seq::empty()
    } else {
        rows_events(rows.drop_last(), dates, legend, zone) + row_events(
            rows.last(),
            dates,
            legend,
            zone,
        )
    }
}

/// The quests of a grid, row by row and in each row from left to right.
pub open spec fn grid_events(
    grid: TableModel,
    legend: Map<Seq<char>, Seq<char>>,
    year: int,
    zone: Seq<char>,
) -> Seq<QuestModel> {
    if grid.rows.len() == 0 {
        Seq::empty()
    } else {
        rows_events(
            grid.rows.subrange(1, grid.rows.len() as int),
            column_dates(grid.rows[0], year),
            legend,
            zone,
        )
    }
}

/// Reads the number of columns that a cell of the first row spans.
pub fn span_of(cell: &Cell) -> (r: usize)
    ensures
        r as int == column_span(cell@),
{
    match &cell.colspan {
        Some(text) => match parse_decimal(text.as_str(), usize::MAX as u64) {
            Some(n) => n as usize,
            None => 1,
        },
        None => 1,
    }
}

/// Reads the day that a cell of the first row names.
pub fn date_of(cell: &Cell, year: i32) -> (r: Option<(i32, u32, u32)>)
    ensures
        r == column_date(cell@, year as int),
{
    proof {
        reveal_strlit("/");
    }
    let mut text = decimal_text(year as i64);
    text.append("/");
    text.append(cell.text.as_str());
    assert(text@ =~= dated_text(year as int, cell@.text));
    parse_date(text.as_str(), DATE_FORMAT)
}

/// Reads the days of a grid's columns from its first row.
pub fn column_dates_of(header: &Row, year: i32) -> (dates: Vec<(i32, u32, u32)>)
    ensures
        dates@ == column_dates(header@, year as int),
{
    let mut dates: Vec<(i32, u32, u32)> = Vec::new();
    if header.cells.len() == 0 {
        return dates;
    }
    let ghost cells = header@.subrange(1, header@.len() as int);
    let mut i: usize = 1;
    while i < header.cells.len()
        invariant
            1 <= i <= header.cells.len(),
            cells == header@.subrange(1, header@.len() as int),
            dates@ == header_dates(cells.take(i - 1), year as int),
        decreases header.cells.len() - i,
    {
        let cell = &header.cells[i];
        proof {
            let upto = cells.take(i as int);
            assert(upto.drop_last() =~= cells.take(i - 1));
            assert(upto.last() == cell@);
        }
        match date_of(cell, year) {
            Some(date) => {
                let span = span_of(cell);
                let ghost before = dates@;
                let mut k: usize = 0;
                while k < span
                    invariant
                        k <= span,
                        dates@ == before + Seq::new(k as nat, |j: int| date),
                    decreases span - k,
                {
                    dates.push(date);
                    assert(dates@ =~= before + Seq::new((k + 1) as nat, |j: int| date));
                    k += 1;
                }
            },
            None => {},
        }
        i += 1;
    }
    assert(cells.take(i - 1) =~= cells);
    dates
}

/// Reads the colour of a cell, in normal form.
pub fn key_of(cell: &Cell) -> (r: Option<String>)
    ensures
        r.deep_view() == cell_key(cell@),
{
    match &cell.style {
        Some(style) => match background_of(style.as_str()) {
            Some(css) => Some(normalize(css.as_str())),
            None => None,
        },
        None => None,
    }
}

/// Decodes the cell in column `index` of a row for the time `time`: gives its quest,
/// or says what is missing for one.
pub fn decode_cell(
    cell: &Cell,
    index: usize,
    dates: &Vec<(i32, u32, u32)>,
    time: (u32, u32, u32),
    legend: &ColorMap,
    zone: &str,
) -> (r: Result<Quest, CellMiss>)
    ensures
        match r {
            Ok(quest) => cell_outcome(cell@, index as int, dates@, time, legend@, zone@) == Ok::<
                QuestModel,
                CellMiss,
            >(quest@),
            Err(miss) => cell_outcome(cell@, index as int, dates@, time, legend@, zone@) == Err::<
                QuestModel,
                CellMiss,
            >(miss),
        },
{
    let key = match key_of(cell) {
        Some(key) => key,
        None => {
            return Err(CellMiss::NoColor);
        },
    };
    let label = match legend.get(key.as_str()) {
        Some(label) => label,
        None => {
            return Err(CellMiss::UnknownColor);
        },
    };
    if index >= dates.len() {
        return Err(CellMiss::NoDay);
    }
    match resolve(zone, dates[index], time) {
        Resolved::Single(at) => Ok(Quest { start_time: at, name: label.clone() }),
        Resolved::Gap => Err(CellMiss::Gap),
        Resolved::Fold => Err(CellMiss::Fold),
        Resolved::Invalid => Err(CellMiss::NoLocalTime),
    }
}

/// Decodes one row of a grid and appends its quests to `quests`.
pub fn decode_row(
    row: &Row,
    dates: &Vec<(i32, u32, u32)>,
    legend: &ColorMap,
    zone: &str,
    quests: &mut Vec<Quest>,
)
    ensures
        models(final(quests)@) == models(old(quests)@) + row_events(
            row@,
            dates@,
            legend@,
            zone@,
        ),
{
    if row.cells.len() == 0 {
        assert(models(quests@) =~= models(quests@) + Seq::<QuestModel>::empty());
        return ;
    }
    assert(row@[0] == row.cells@[0]@);
    let time = match parse_time(row.cells[0].text.as_str(), TIME_FORMAT) {
        Some(time) => time,
        None => {
            assert(models(quests@) =~= models(quests@) + Seq::<QuestModel>::empty());
            return ;
        },
    };
    let ghost cells = row@.subrange(1, row@.len() as int);
    let mut i: usize = 1;
    assert(models(quests@) =~= models(old(quests)@) + Seq::<QuestModel>::empty());
    while i < row.cells.len()
        invariant
            1 <= i <= row.cells.len(),
            cells == row@.subrange(1, row@.len() as int),
            models(quests@) == models(old(quests)@) + cells_events(
                cells,
                i - 1,
                dates@,
                time,
                legend@,
                zone@,
            ),
        decreases row.cells.len() - i,
    {
        assert(cells[i - 1] == row.cells@[i as int]@);
        let ghost before = quests@;
        match decode_cell(&row.cells[i], i - 1, dates, time, legend, zone) {
            Ok(quest) => {
                quests.push(quest);
                assert(models(quests@) =~= models(before).push(quest@));
                assert(models(quests@) =~= models(old(quests)@) + cells_events(
                    cells,
                    i as int,
                    dates@,
                    time,
                    legend@,
                    zone@,
                ));
            },
            Err(_) => {},
        }
        i += 1;
    }
}

/// Decodes a grid under the time zone `zone` and appends its quests to `quests`.
pub fn decode_grid(
    grid: &Table,
    legend: &ColorMap,
    year: i32,
    zone: &str,
    quests: &mut Vec<Quest>,
)
    ensures
        models(final(quests)@) == models(old(quests)@) + grid_events(
            grid@,
            legend@,
            year as int,
            zone@,
        ),
{
    if grid.rows.len() == 0 {
        assert(models(quests@) =~= models(quests@) + Seq::<QuestModel>::empty());
        return ;
    }
    assert(grid@.rows[0] == grid.rows@[0]@);
    let dates = column_dates_of(&grid.rows[0], year);
    let ghost rows = grid@.rows.subrange(1, grid@.rows.len() as int);
    let mut i: usize = 1;
    assert(models(quests@) =~= models(old(quests)@) + Seq::<QuestModel>::empty());
    while i < grid.rows.len()
        invariant
            1 <= i <= grid.rows.len(),
            rows == grid@.rows.subrange(1, grid@.rows.len() as int),
            dates@ == column_dates(grid@.rows[0], year as int),
            models(quests@) == models(old(quests)@) + rows_events(
                rows.take(i - 1),
                dates@,
                legend@,
                zone@,
            ),
        decreases grid.rows.len() - i,
    {
        proof {
            let upto = rows.take(i as int);
            assert(upto.drop_last() =~= rows.take(i - 1));
            assert(upto.last() == grid.rows@[i as int]@);
        }
        let ghost before = models(quests@);
        decode_row(&grid.rows[i], &dates, legend, zone, quests);
        assert(models(quests@) =~= models(old(quests)@) + rows_events(
            rows.take(i as int),
            dates@,
            legend@,
            zone@,
        ));
        i += 1;
    }
    assert(rows.take(i - 1) =~= rows);
}

/// Decodes a grid of the calendar, whose times are those of [`SOURCE_ZONE`], and
/// appends its quests to `quests`. `year` is the year of the days that the grid names.
pub fn parse_calendar(grid: &Table, legend: &ColorMap, year: i32, quests: &mut Vec<Quest>)
    ensures
        models(final(quests)@) == models(old(quests)@) + grid_events(
            grid@,
            legend@,
            year as int,
            SOURCE_ZONE@,
        ),
{
    decode_grid(grid, legend, year, SOURCE_ZONE, quests)
}

/// The greatest number of cells in a row of `rows`.
pub open spec fn width(rows: Seq<Seq<CellModel>>) -> int
    decreases rows.len(),
{
    if rows.len() == 0 {
        0
    } else if rows.last().len() >= width(rows.drop_last()) {
        rows.last().len() as int
    } else {
        width(rows.drop_last())
    }
}

/// The quest, if there is one, of the cell in row `row` and column `column` of a
/// grid, both counted from 0: the row's time, on the day of the column.
pub open spec fn event_at(
    grid: TableModel,
    legend: Map<Seq<char>, Seq<char>>,
    year: int,
    zone: Seq<char>,
    row: int,
    column: int,
) -> Option<QuestModel> {
    if 1 <= row < grid.rows.len() && 1 <= column < grid.rows[row].len() {
        match row_time(grid.rows[row]) {
            Some(time) => cell_event(
                grid.rows[row][column],
                column - 1,
                column_dates(grid.rows[0], year),
                time,
                legend,
                zone,
            ),
            None => None,
        }
    } else {
        None
    }
}

proof fn lemma_width_bounds(rows: Seq<Seq<CellModel>>, i: int)
    requires
        0 <= i < rows.len(),
    ensures
        rows[i].len() <= width(rows),
    decreases rows.len(),
{
    if i < rows.len() - 1 {
        lemma_width_bounds(rows.drop_last(), i);
    }
}

proof fn lemma_cells_events_len(
    cells: Seq<CellModel>,
    upto: int,
    dates: Seq<(i32, u32, u32)>,
    time: (u32, u32, u32),
    legend: Map<Seq<char>, Seq<char>>,
    zone: Seq<char>,
)
    requires
        0 <= upto,
    ensures
        cells_events(cells, upto, dates, time, legend, zone).len() <= upto,
    decreases upto,
{
    if upto > 0 {
        lemma_cells_events_len(cells, upto - 1, dates, time, legend, zone);
    }
}

proof fn lemma_rows_events_len(
    rows: Seq<Seq<CellModel>>,
    dates: Seq<(i32, u32, u32)>,
    legend: Map<Seq<char>, Seq<char>>,
    zone: Seq<char>,
    most: int,
)
    requires
        1 <= most,
        forall|i: int| 0 <= i < rows.len() ==> (#[trigger] rows[i]).len() <= most,
    ensures
        rows_events(rows, dates, legend, zone).len() <= rows.len() * (most - 1),
    decreases rows.len(),
{
    if rows.len() > 0 {
        let rest = rows.drop_last();
        assert forall|i: int| 0 <= i < rest.len() implies (#[trigger] rest[i]).len() <= most by {
            assert(rest[i] == rows[i]);
        }
        lemma_rows_events_len(rest, dates, legend, zone, most);
        let row = rows.last();
        assert(row == rows[rows.len() - 1]);
        match row_time(row) {
            Some(time) => {
                lemma_cells_events_len(
                    row.subrange(1, row.len() as int),
                    row.len() - 1,
                    dates,
                    time,
                    legend,
                    zone,
                );
            },
            None => {},
        }
        assert(row_events(row, dates, legend, zone).len() <= most - 1);
        assert(rows.len() * (most - 1) == rest.len() * (most - 1) + (most - 1))
            by (nonlinear_arith)
            requires
                rows.len() == rest.len() + 1,
        ;
    } else {
        assert(rows.len() * (most - 1) == 0) by (nonlinear_arith)
            requires
                rows.len() == 0,
        ;
    }
}

/// A grid gives at most one quest for each cell below its first row and right of its
/// first column: no more than the rows less one, times the width less one. The one
/// grid left out is that of several rows which are all without cells, where the
/// product is negative.
pub proof fn lemma_grid_events_bound(
    grid: TableModel,
    legend: Map<Seq<char>, Seq<char>>,
    year: int,
    zone: Seq<char>,
)
    requires
        grid.rows.len() <= 1 || width(grid.rows) >= 1,
    ensures
        grid_events(grid, legend, year, zone).len() <= (grid.rows.len() - 1) * (width(grid.rows)
            - 1),
{
    let rows = grid.rows;
    if rows.len() == 0 {
        assert((rows.len() - 1) * (width(rows) - 1) == 1) by (nonlinear_arith)
            requires
                rows.len() == 0,
                width(rows) == 0,
        ;
    } else if rows.len() == 1 {
        let below = rows.subrange(1, rows.len() as int);
        assert(below.len() == 0);
        assert((rows.len() - 1) * (width(rows) - 1) == 0) by (nonlinear_arith)
            requires
                rows.len() == 1,
        ;
    } else {
        let below = rows.subrange(1, rows.len() as int);
        let most = width(rows);
        assert forall|i: int| 0 <= i < below.len() implies (#[trigger] below[i]).len()
            <= most by {
            assert(below[i] == rows[i + 1]);
            lemma_width_bounds(rows, i + 1);
        }
        lemma_rows_events_len(below, column_dates(rows[0], year), legend, zone, most);
    }
}

proof fn lemma_cells_events_sources(
    cells: Seq<CellModel>,
    upto: int,
    dates: Seq<(i32, u32, u32)>,
    time: (u32, u32, u32),
    legend: Map<Seq<char>, Seq<char>>,
    zone: Seq<char>,
    k: int,
) -> (column: int)
    requires
        0 <= k < cells_events(cells, upto, dates, time, legend, zone).len(),
    ensures
        0 <= column < upto,
        cell_event(cells[column], column, dates, time, legend, zone) == Some(
            cells_events(cells, upto, dates, time, legend, zone)[k],
        ),
    decreases upto,
{
    let before = cells_events(cells, upto - 1, dates, time, legend, zone);
    if k < before.len() {
        lemma_cells_events_sources(cells, upto - 1, dates, time, legend, zone, k)
    } else {
        upto - 1
    }
}

proof fn lemma_rows_events_sources(
    rows: Seq<Seq<CellModel>>,
    dates: Seq<(i32, u32, u32)>,
    legend: Map<Seq<char>, Seq<char>>,
    zone: Seq<char>,
    k: int,
) -> (place: (int, int))
    requires
        0 <= k < rows_events(rows, dates, legend, zone).len(),
    ensures
        0 <= place.0 < rows.len(),
        1 <= place.1 < rows[place.0].len(),
        row_time(rows[place.0]) is Some,
        cell_event(
            rows[place.0][place.1],
            place.1 - 1,
            dates,
            row_time(rows[place.0])->0,
            legend,
            zone,
        ) == Some(rows_events(rows, dates, legend, zone)[k]),
    decreases rows.len(),
{
    let rest = rows.drop_last();
    let before = rows_events(rest, dates, legend, zone);
    if k < before.len() {
        let place = lemma_rows_events_sources(rest, dates, legend, zone, k);
        assert(rest[place.0] == rows[place.0]);
        place
    } else {
        let row = rows.last();
        let time = row_time(row)->0;
        let cells = row.subrange(1, row.len() as int);
        let column = lemma_cells_events_sources(
            cells,
            row.len() - 1,
            dates,
            time,
            legend,
            zone,
            k - before.len(),
        );
        assert(cells[column] == row[column + 1]);
        (rows.len() - 1, column + 1)
    }
}

/// Every quest of a grid is the quest of one of its cells, below the first row and
/// right of the first column: it starts at the time of that cell's row, on the day
/// that the first row gives for that cell's column, and bears the label that the
/// legend holds for that cell's colour.
pub proof fn lemma_grid_event_source(
    grid: TableModel,
    legend: Map<Seq<char>, Seq<char>>,
    year: int,
    zone: Seq<char>,
    k: int,
) -> (place: (int, int))
    requires
        0 <= k < grid_events(grid, legend, year, zone).len(),
    ensures
        1 <= place.0 < grid.rows.len(),
        1 <= place.1 < grid.rows[place.0].len(),
        place.1 - 1 < column_dates(grid.rows[0], year).len(),
        event_at(grid, legend, year, zone, place.0, place.1) == Some(
            grid_events(grid, legend, year, zone)[k],
        ),
        row_time(grid.rows[place.0]) is Some,
        start_instant(
            zone,
            column_dates(grid.rows[0], year)[place.1 - 1],
            row_time(grid.rows[place.0])->0,
        ) == Some(grid_events(grid, legend, year, zone)[k].start_time as i64),
        cell_label(grid.rows[place.0][place.1], legend) == Some(
            grid_events(grid, legend, year, zone)[k].name,
        ),
{
    let below = grid.rows.subrange(1, grid.rows.len() as int);
    let dates = column_dates(grid.rows[0], year);
    let found = lemma_rows_events_sources(below, dates, legend, zone, k);
    assert(below[found.0] == grid.rows[found.0 + 1]);
    (found.0 + 1, found.1)
}

proof fn lemma_header_dates_prefix(cells: Seq<CellModel>, year: int, upto: int)
    requires
        0 <= upto <= cells.len(),
    ensures
        header_dates(cells.take(upto), year).is_prefix_of(header_dates(cells, year)),
    decreases cells.len() - upto,
{
    if upto == cells.len() {
        assert(cells.take(upto) =~= cells);
    } else {
        lemma_header_dates_prefix(cells.drop_last(), year, upto);
        assert(cells.drop_last().take(upto) =~= cells.take(upto));
    }
}

/// A cell of the first row that names a day and spans several columns gives each of
/// these columns, which lie side by side, that same day: the columns start where the
/// days of the cells before it end.
pub proof fn lemma_spanned_columns_share_date(
    cells: Seq<CellModel>,
    year: int,
    at: int,
    date: (i32, u32, u32),
    offset: int,
)
    requires
        0 <= at < cells.len(),
        column_date(cells[at], year) == Some(date),
        0 <= offset < column_span(cells[at]),
    ensures
        header_dates(cells.take(at), year).len() + offset < header_dates(cells, year).len(),
        header_dates(cells, year)[header_dates(cells.take(at), year).len() + offset] == date,
{
    let upto = cells.take(at + 1);
    assert(upto.drop_last() =~= cells.take(at));
    assert(upto.last() == cells[at]);
    let before = header_dates(cells.take(at), year);
    let copies = Seq::new(column_span(cells[at]) as nat, |i: int| date);
    assert(header_dates(upto, year) == before + copies);
    assert((before + copies)[before.len() + offset] == copies[offset]);
    lemma_header_dates_prefix(cells, year, at + 1);
}

/// The days of a grid's columns, read from its first row; none for a grid without rows.
pub open spec fn grid_dates(grid: TableModel, year: int) -> Seq<(i32, u32, u32)> {
    if grid.rows.len() == 0 {
        Seq::empty()
    } else {
        column_dates(grid.rows[0], year)
    }
}

proof fn lemma_cells_events_within_dates(
    cells: Seq<CellModel>,
    upto: int,
    dates: Seq<(i32, u32, u32)>,
    time: (u32, u32, u32),
    legend: Map<Seq<char>, Seq<char>>,
    zone: Seq<char>,
)
    requires
        0 <= upto,
    ensures
        cells_events(cells, upto, dates, time, legend, zone).len() <= upto,
        cells_events(cells, upto, dates, time, legend, zone).len() <= dates.len(),
    decreases upto,
{
    if upto > 0 {
        lemma_cells_events_within_dates(cells, upto - 1, dates, time, legend, zone);
    }
}

proof fn lemma_rows_events_within_dates(
    rows: Seq<Seq<CellModel>>,
    dates: Seq<(i32, u32, u32)>,
    legend: Map<Seq<char>, Seq<char>>,
    zone: Seq<char>,
)
    ensures
        rows_events(rows, dates, legend, zone).len() <= rows.len() * dates.len(),
    decreases rows.len(),
{
    if rows.len() > 0 {
        let rest = rows.drop_last();
        lemma_rows_events_within_dates(rest, dates, legend, zone);
        let row = rows.last();
        match row_time(row) {
            Some(time) => {
                lemma_cells_events_within_dates(
                    row.subrange(1, row.len() as int),
                    row.len() - 1,
                    dates,
                    time,
                    legend,
                    zone,
                );
            },
            None => {},
        }
        assert(rows.len() * dates.len() == rest.len() * dates.len() + dates.len())
            by (nonlinear_arith)
            requires
                rows.len() == rest.len() + 1,
        ;
    } else {
        assert(rows.len() * dates.len() == 0) by (nonlinear_arith)
            requires
                rows.len() == 0,
        ;
    }
}

/// A grid gives at most one quest for each row below its first and each column that
/// has a day: no more than the rows less one, times the days of its columns.
pub proof fn lemma_grid_events_within_dates(
    grid: TableModel,
    legend: Map<Seq<char>, Seq<char>>,
    year: int,
    zone: Seq<char>,
)
    ensures
        grid_events(grid, legend, year, zone).len() <= (grid.rows.len() - 1) * grid_dates(
            grid,
            year,
        ).len(),
{
    let dates = grid_dates(grid, year);
    if grid.rows.len() == 0 {
        assert((grid.rows.len() - 1) * dates.len() == 0) by (nonlinear_arith)
            requires
                dates.len() == 0,
        ;
    } else {
        let below = grid.rows.subrange(1, grid.rows.len() as int);
        lemma_rows_events_within_dates(below, dates, legend, zone);
    }
}

/// A cell whose day and time the clocks of the zone leave out, or show twice, gives
/// no quest, whatever its colour.
pub proof fn lemma_clock_change_gives_no_quest(
    cell: CellModel,
    index: int,
    dates: Seq<(i32, u32, u32)>,
    time: (u32, u32, u32),
    legend: Map<Seq<char>, Seq<char>>,
    zone: Seq<char>,
)
    requires
        0 <= index < dates.len(),
        local_instants(zone, dates[index], time) matches Some(at) && at.len() != 1,
    ensures
        cell_event(cell, index, dates, time, legend, zone) is None,
{
}

} // verus!
