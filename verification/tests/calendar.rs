use chrono::TimeZone;
use pso2_scraper::calendar::{
    column_dates_of, date_of, decode_cell, decode_grid, decode_row, key_of, parse_calendar,
    span_of, CellMiss,
};
use pso2_scraper::clock::{resolve, resolved, Resolved, SOURCE_ZONE};
use pso2_scraper::legend::ColorMap;
use pso2_scraper::quest::Quest;
use pso2_scraper::table::{Cell, Row, Table};

fn plain(text: &str) -> Cell {
    Cell { text: text.to_string(), style: None, colspan: None }
}

fn spanning(text: &str, colspan: &str) -> Cell {
    Cell { text: text.to_string(), style: None, colspan: Some(colspan.to_string()) }
}

fn colored(color: &str) -> Cell {
    Cell { text: String::new(), style: Some(format!("background: {};", color)), colspan: None }
}

fn row(cells: Vec<Cell>) -> Row {
    Row { cells }
}

fn red_legend() -> ColorMap {
    let mut map = ColorMap::new();
    map.insert("#ff0000".to_string(), "Boss Fight: https://example.org/a".to_string());
    map
}

fn pacific(year: i32, month: u32, day: u32, hour: u32, minute: u32) -> i64 {
    chrono_tz::US::Pacific.with_ymd_and_hms(year, month, day, hour, minute, 0).unwrap().timestamp()
}

#[test]
fn resolve_gives_the_instant_in_the_zone() {
    assert_eq!(resolve(SOURCE_ZONE, (2024, 1, 5), (14, 0, 0)), Resolved::Single(1704492000));
    assert_eq!(resolve("UTC", (2024, 1, 5), (14, 0, 0)), Resolved::Single(1704463200));
    assert_eq!(
        resolve(SOURCE_ZONE, (2024, 7, 4), (9, 30, 0)),
        Resolved::Single(pacific(2024, 7, 4, 9, 30))
    );
    assert_eq!(resolve("UTC", (1970, 1, 1), (0, 0, 0)), Resolved::Single(0));
}

#[test]
fn resolve_around_the_hour_that_the_clocks_leave_out() {
    assert_eq!(resolve(SOURCE_ZONE, (2024, 3, 10), (1, 59, 0)), Resolved::Single(pacific(2024, 3, 10, 1, 59)));
    assert_eq!(resolve(SOURCE_ZONE, (2024, 3, 10), (2, 0, 0)), Resolved::Gap);
    assert_eq!(resolve(SOURCE_ZONE, (2024, 3, 10), (2, 59, 59)), Resolved::Gap);
    assert_eq!(resolve(SOURCE_ZONE, (2024, 3, 10), (3, 0, 0)), Resolved::Single(pacific(2024, 3, 10, 3, 0)));
}

#[test]
fn resolve_around_the_hour_that_the_clocks_repeat() {
    assert_eq!(resolve(SOURCE_ZONE, (2024, 11, 3), (0, 59, 0)), Resolved::Single(pacific(2024, 11, 3, 0, 59)));
    assert_eq!(resolve(SOURCE_ZONE, (2024, 11, 3), (1, 0, 0)), Resolved::Fold);
    assert_eq!(resolve(SOURCE_ZONE, (2024, 11, 3), (1, 59, 59)), Resolved::Fold);
    assert_eq!(resolve(SOURCE_ZONE, (2024, 11, 3), (2, 0, 0)), Resolved::Single(pacific(2024, 11, 3, 2, 0)));
}

#[test]
fn resolve_of_what_is_no_day_or_zone_is_invalid() {
    assert_eq!(resolve(SOURCE_ZONE, (2024, 13, 1), (10, 0, 0)), Resolved::Invalid);
    assert_eq!(resolve(SOURCE_ZONE, (2024, 1, 5), (24, 0, 0)), Resolved::Invalid);
}

#[test]
fn resolved_counts_the_instants() {
    assert_eq!(resolved(&Some(vec![5])), Resolved::Single(5));
    assert_eq!(resolved(&Some(vec![5, 6])), Resolved::Fold);
    assert_eq!(resolved(&Some(vec![5, 6, 7])), Resolved::Fold);
    assert_eq!(resolved(&Some(Vec::new())), Resolved::Gap);
    assert_eq!(resolved(&None), Resolved::Invalid);
}

#[test]
fn resolve_tells_gap_fold_and_invalid() {
    assert_eq!(resolve(SOURCE_ZONE, (2024, 1, 5), (14, 0, 0)), Resolved::Single(1704492000));
    assert_eq!(resolve(SOURCE_ZONE, (2024, 3, 10), (2, 30, 0)), Resolved::Gap);
    assert_eq!(resolve(SOURCE_ZONE, (2024, 11, 3), (1, 30, 0)), Resolved::Fold);
    assert_eq!(resolve(SOURCE_ZONE, (2024, 2, 30), (1, 30, 0)), Resolved::Invalid);
    assert_eq!(resolve(SOURCE_ZONE, (2024, 1, 5), (1, 60, 0)), Resolved::Invalid);
    assert_eq!(resolve("Nowhere/Land", (2024, 1, 5), (14, 0, 0)), Resolved::Invalid);
}

#[test]
fn date_of_reads_month_and_day() {
    assert_eq!(date_of(&plain("01/05"), 2024), Some((2024, 1, 5)));
    assert_eq!(date_of(&plain("12/31"), 2023), Some((2023, 12, 31)));
    assert_eq!(date_of(&plain("2/29"), 2024), Some((2024, 2, 29)));
}

#[test]
fn date_of_refuses_what_is_no_day() {
    assert_eq!(date_of(&plain("2/29"), 2023), None);
    assert_eq!(date_of(&plain("13/01"), 2024), None);
    assert_eq!(date_of(&plain("Week"), 2024), None);
    assert_eq!(date_of(&plain(""), 2024), None);
    assert_eq!(date_of(&plain("01/05/06"), 2024), None);
}

#[test]
fn span_of_defaults_to_one() {
    assert_eq!(span_of(&plain("01/05")), 1);
    assert_eq!(span_of(&spanning("01/05", "2")), 2);
    assert_eq!(span_of(&spanning("01/05", "0")), 0);
    assert_eq!(span_of(&spanning("01/05", "+3")), 3);
    assert_eq!(span_of(&spanning("01/05", "two")), 1);
    assert_eq!(span_of(&spanning("01/05", "")), 1);
    assert_eq!(span_of(&spanning("01/05", "-1")), 1);
    assert_eq!(span_of(&spanning("01/05", "99999999999999999999999999")), 1);
}

#[test]
fn column_dates_skip_the_first_cell() {
    let header = row(vec![plain("01/01"), plain("01/05"), plain("01/06")]);
    assert_eq!(column_dates_of(&header, 2024), vec![(2024, 1, 5), (2024, 1, 6)]);
    assert_eq!(column_dates_of(&row(Vec::new()), 2024), Vec::new());
    assert_eq!(column_dates_of(&row(vec![plain("01/05")]), 2024), Vec::new());
}

#[test]
fn column_dates_repeat_over_a_span() {
    let header = row(vec![plain("Week"), plain("01/05"), spanning("01/06", "2"), plain("01/07")]);
    assert_eq!(
        column_dates_of(&header, 2024),
        vec![(2024, 1, 5), (2024, 1, 6), (2024, 1, 6), (2024, 1, 7)]
    );
}

#[test]
fn column_dates_pass_over_what_is_no_day() {
    let header = row(vec![plain("Week"), plain("01/05"), spanning("soon", "3"), plain("01/07")]);
    assert_eq!(column_dates_of(&header, 2024), vec![(2024, 1, 5), (2024, 1, 7)]);
}

#[test]
fn key_of_reads_the_colour_in_normal_form() {
    assert_eq!(key_of(&colored(" #FF0000 ")), Some("#ff0000".to_string()));
    assert_eq!(key_of(&colored("rgb(255, 0, 0)")), Some("rgb(255, 0, 0)".to_string()));
    assert_eq!(key_of(&plain("x")), None);
    let open = Cell { text: String::new(), style: Some("background: red".to_string()), colspan: None };
    assert_eq!(key_of(&open), None);
}

#[test]
fn decode_cell_gives_the_quest() {
    let legend = red_legend();
    let dates = vec![(2024, 1, 5)];
    let quest = decode_cell(&colored("#ff0000"), 0, &dates, (14, 0, 0), &legend, SOURCE_ZONE);
    assert_eq!(
        quest,
        Ok(Quest {
            start_time: 1704492000,
            name: "Boss Fight: https://example.org/a".to_string()
        })
    );
}

#[test]
fn decode_cell_says_what_is_missing() {
    let legend = red_legend();
    let dates = vec![(2024, 1, 5), (2024, 3, 10), (2024, 11, 3), (2024, 2, 30)];
    let red = colored("#ff0000");
    let at = (2, 30, 0);
    assert_eq!(decode_cell(&plain(""), 0, &dates, at, &legend, SOURCE_ZONE), Err(CellMiss::NoColor));
    assert_eq!(
        decode_cell(&colored("#0000ff"), 0, &dates, at, &legend, SOURCE_ZONE),
        Err(CellMiss::UnknownColor)
    );
    assert_eq!(decode_cell(&red, 4, &dates, at, &legend, SOURCE_ZONE), Err(CellMiss::NoDay));
    assert_eq!(decode_cell(&red, 1, &dates, at, &legend, SOURCE_ZONE), Err(CellMiss::Gap));
    assert_eq!(decode_cell(&red, 2, &dates, (1, 30, 0), &legend, SOURCE_ZONE), Err(CellMiss::Fold));
    assert_eq!(decode_cell(&red, 3, &dates, at, &legend, SOURCE_ZONE), Err(CellMiss::NoLocalTime));
    assert_eq!(decode_cell(&red, 0, &dates, at, &legend, "Nowhere"), Err(CellMiss::NoLocalTime));
}

#[test]
fn decode_cell_looks_for_the_colour_first() {
    let legend = red_legend();
    let none = Vec::new();
    assert_eq!(decode_cell(&plain(""), 0, &none, (2, 30, 0), &legend, "Nowhere"), Err(CellMiss::NoColor));
    assert_eq!(
        decode_cell(&colored("#0000ff"), 0, &none, (2, 30, 0), &legend, "Nowhere"),
        Err(CellMiss::UnknownColor)
    );
    assert_eq!(
        decode_cell(&colored("#ff0000"), 0, &none, (2, 30, 0), &legend, "Nowhere"),
        Err(CellMiss::NoDay)
    );
}

#[test]
fn decode_row_needs_a_time() {
    let legend = red_legend();
    let dates = vec![(2024, 1, 5)];
    let mut quests = Vec::new();
    decode_row(&row(vec![plain("Time"), colored("#ff0000")]), &dates, &legend, SOURCE_ZONE, &mut quests);
    decode_row(&row(vec![plain("14:00"), colored("#ff0000")]), &dates, &legend, SOURCE_ZONE, &mut quests);
    decode_row(&row(vec![plain("13:00 PM"), colored("#ff0000")]), &dates, &legend, SOURCE_ZONE, &mut quests);
    decode_row(&row(Vec::new()), &dates, &legend, SOURCE_ZONE, &mut quests);
    assert_eq!(quests, Vec::new());
    decode_row(&row(vec![plain("12:30 AM"), colored("#ff0000")]), &dates, &legend, SOURCE_ZONE, &mut quests);
    assert_eq!(quests.len(), 1);
    assert_eq!(quests[0].start_time, pacific(2024, 1, 5, 0, 30));
}

#[test]
fn round_trip_of_one_red_cell() {
    let grid = Table {
        rows: vec![
            row(vec![plain("Week"), plain("01/05")]),
            row(vec![plain("02:00 PM"), colored("#ff0000")]),
        ],
    };
    let mut quests = Vec::new();
    parse_calendar(&grid, &red_legend(), 2024, &mut quests);
    assert_eq!(quests.len(), 1);
    assert!(quests[0].name.contains("Boss Fight"));
    assert_eq!(quests[0].name, "Boss Fight: https://example.org/a");
    assert_eq!(quests[0].start_time, pacific(2024, 1, 5, 14, 0));
    assert_eq!(quests[0].start_time, 1704492000);
}

#[test]
fn parse_calendar_appends_to_what_is_there() {
    let grid = Table {
        rows: vec![
            row(vec![plain("Week"), plain("01/05")]),
            row(vec![plain("02:00 PM"), colored("#ff0000")]),
        ],
    };
    let kept = Quest { start_time: 7, name: "kept".to_string() };
    let mut quests = vec![kept.clone()];
    parse_calendar(&grid, &red_legend(), 2024, &mut quests);
    assert_eq!(quests.len(), 2);
    assert_eq!(quests[0], kept);
}

#[test]
fn grid_without_rows_gives_nothing() {
    let mut quests = Vec::new();
    parse_calendar(&Table { rows: Vec::new() }, &red_legend(), 2024, &mut quests);
    assert_eq!(quests, Vec::new());
    let header_only = Table { rows: vec![row(vec![plain("Week"), plain("01/05")])] };
    parse_calendar(&header_only, &red_legend(), 2024, &mut quests);
    assert_eq!(quests, Vec::new());
}

#[test]
fn grid_with_an_empty_legend_gives_nothing() {
    let grid = Table {
        rows: vec![
            row(vec![plain("Week"), plain("01/05")]),
            row(vec![plain("02:00 PM"), colored("#ff0000")]),
        ],
    };
    let mut quests = Vec::new();
    parse_calendar(&grid, &ColorMap::new(), 2024, &mut quests);
    assert_eq!(quests, Vec::new());
}

#[test]
fn grid_cell_under_a_span_takes_the_spanned_day() {
    let grid = Table {
        rows: vec![
            row(vec![plain("Week"), spanning("01/05", "2"), plain("01/07")]),
            row(vec![plain("02:00 PM"), colored("#ff0000"), colored("#ff0000"), colored("#ff0000")]),
        ],
    };
    let mut quests = Vec::new();
    parse_calendar(&grid, &red_legend(), 2024, &mut quests);
    let starts: Vec<i64> = quests.iter().map(|q| q.start_time).collect();
    assert_eq!(
        starts,
        vec![pacific(2024, 1, 5, 14, 0), pacific(2024, 1, 5, 14, 0), pacific(2024, 1, 7, 14, 0)]
    );
}

#[test]
fn grid_gives_quests_row_by_row() {
    let grid = Table {
        rows: vec![
            row(vec![plain("Week"), plain("01/05"), plain("01/06")]),
            row(vec![plain("01:00 AM"), plain(""), colored("#ff0000")]),
            row(vec![plain("not a time"), colored("#ff0000"), colored("#ff0000")]),
            row(vec![plain("11:30 PM"), colored("#FF0000"), colored("#00ff00")]),
        ],
    };
    let mut quests = Vec::new();
    parse_calendar(&grid, &red_legend(), 2024, &mut quests);
    let starts: Vec<i64> = quests.iter().map(|q| q.start_time).collect();
    assert_eq!(starts, vec![pacific(2024, 1, 6, 1, 0), pacific(2024, 1, 5, 23, 30)]);
}

#[test]
fn grid_gives_no_more_quests_than_cells() {
    let mut rows = vec![row(vec![plain("Week"), plain("01/05"), plain("01/06"), plain("01/07")])];
    for time in ["01:00 AM", "02:00 AM", "03:00 AM", "04:00 PM", "05:00 PM"] {
        rows.push(row(vec![plain(time), colored("#ff0000"), colored("#ff0000"), colored("#ff0000")]));
    }
    let grid = Table { rows };
    let mut quests = Vec::new();
    parse_calendar(&grid, &red_legend(), 2024, &mut quests);
    assert_eq!(quests.len(), (6 - 1) * (4 - 1));
}

#[test]
fn grid_cell_beyond_the_days_is_dropped() {
    let grid = Table {
        rows: vec![
            row(vec![plain("Week"), plain("01/05")]),
            row(vec![plain("02:00 PM"), colored("#00ff00"), colored("#ff0000")]),
        ],
    };
    let mut quests = Vec::new();
    parse_calendar(&grid, &red_legend(), 2024, &mut quests);
    assert_eq!(quests, Vec::new());
}

#[test]
fn clock_change_drops_the_cell_and_no_other() {
    let grid = Table {
        rows: vec![
            row(vec![plain("Week"), plain("03/10"), plain("11/03")]),
            row(vec![plain("02:30 AM"), colored("#ff0000"), colored("#ff0000")]),
            row(vec![plain("01:30 AM"), colored("#ff0000"), colored("#ff0000")]),
        ],
    };
    let mut quests = Vec::new();
    parse_calendar(&grid, &red_legend(), 2024, &mut quests);
    let starts: Vec<i64> = quests.iter().map(|q| q.start_time).collect();
    assert_eq!(starts, vec![pacific(2024, 11, 3, 2, 30), pacific(2024, 3, 10, 1, 30)]);
}

#[test]
fn time_left_out_by_the_clocks_gives_no_quest() {
    let grid = Table {
        rows: vec![
            row(vec![plain("Week"), plain("03/10")]),
            row(vec![plain("02:30 AM"), colored("#ff0000")]),
        ],
    };
    let mut quests = Vec::new();
    parse_calendar(&grid, &red_legend(), 2024, &mut quests);
    assert_eq!(quests, Vec::new());
}

#[test]
fn time_repeated_by_the_clocks_gives_no_quest() {
    let grid = Table {
        rows: vec![
            row(vec![plain("Week"), plain("11/03")]),
            row(vec![plain("01:30 AM"), colored("#ff0000")]),
        ],
    };
    let mut quests = Vec::new();
    parse_calendar(&grid, &red_legend(), 2024, &mut quests);
    assert_eq!(quests, Vec::new());
}

#[test]
fn decode_grid_follows_the_zone() {
    let grid = Table {
        rows: vec![
            row(vec![plain("Week"), plain("03/10")]),
            row(vec![plain("02:30 AM"), colored("#ff0000")]),
        ],
    };
    let mut quests = Vec::new();
    decode_grid(&grid, &red_legend(), 2024, "UTC", &mut quests);
    assert_eq!(quests.len(), 1);
    assert_eq!(quests[0].start_time, 1710037800);
}
