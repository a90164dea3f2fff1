//! From pages to the list of quests: finding the articles, pairing each article's
//! legends with its grids, and putting the quests of all of them in order.

use crate::calendar::{cell_key, decode_grid, grid_events, lemma_grid_event_source};
use crate::clock::SOURCE_ZONE;
use crate::dom::{page_model, preview_scripts, read_page, read_previews};
use crate::legend::{
    decode_legend, label_separator, legend_entry, legend_map, lemma_legend_keys_normal,
};
use crate::pattern::{capture, captured, ARTICLE_PATTERN};
use crate::quest::{descending, models, sort_descending, Quest, QuestModel};
use crate::table::{Page, PageModel, Table, TableModel};
use vstd::prelude::*;

verus! {

/// The address of the page that lists the articles.
pub const LISTING_URL: &'static str = "https://pso2.com/news/urgent-quests";

/// The number of cells in each row of a legend.
pub const LEGEND_WIDTH: usize = 2;

/// The number of cells in each row of a grid.
pub const GRID_WIDTH: usize = 8;

/// The path of the article that a preview's script opens; `None` where the script
/// opens none.
pub open spec fn article_path(script: Seq<char>) -> Option<Seq<char>> {
    captured(ARTICLE_PATTERN@, script, 1)
}

/// The address of the article at `path`.
pub open spec fn article_address(path: Seq<char>) -> Seq<char> {
    LISTING_URL@ + seq!['/'] + path
}

/// The addresses of the articles that the scripts open, in the order of the scripts;
/// a script that opens none is passed over.
pub open spec fn article_addresses(scripts: Seq<Seq<char>>) -> Seq<Seq<char>>
    decreases scripts.len(),
{
    if scripts.len() == 0 {
        Seq::empty()
    } else {
        let before = article_addresses(scripts.drop_last());
        match article_path(scripts.last()) {
            Some(path) => before.push(article_address(path)),
            None => before,
        }
    }
}

/// Finds the address of the article that a preview's script opens.
pub fn address_of(script: &str) -> (r: Option<String>)
    ensures
        r.deep_view() == match article_path(script@) {
            Some(path) => Some(article_address(path)),
            None => None,
        },
{
    match capture(ARTICLE_PATTERN, script, 1) {
        Some(path) => {
            proof {
                reveal_strlit("/");
            }
            let mut address = LISTING_URL.to_owned();
            address.append("/");
            address.append(path.as_str());
            assert(address@ =~= article_address(path@));
            Some(address)
        },
        None => None,
    }
}

/// Finds the addresses of the articles that the scripts of the previews open.
pub fn addresses_of(scripts: &Vec<String>) -> (r: Vec<String>)
    ensures
        r.deep_view() == article_addresses(scripts.deep_view()),
{
    let mut found: Vec<String> = Vec::new();
    let mut i: usize = 0;
    assert(found.deep_view() =~= Seq::<Seq<char>>::empty());
    while i < scripts.len()
        invariant
            i <= scripts.len(),
            found.deep_view() == article_addresses(scripts.deep_view().take(i as int)),
        decreases scripts.len() - i,
    {
        proof {
            let upto = scripts.deep_view().take(i + 1);
            assert(upto.drop_last() =~= scripts.deep_view().take(i as int));
            assert(upto.last() == scripts@[i as int]@);
        }
        let ghost before = found.deep_view();
        match address_of(scripts[i].as_str()) {
            Some(address) => {
                found.push(address);
                assert(found.deep_view() =~= before.push(address@));
            },
            None => {},
        }
        i += 1;
    }
    assert(scripts.deep_view().take(i as int) =~= scripts.deep_view());
    found
}

/// Finds the addresses of the articles that the listing page shows, in the order of
/// their previews.
pub fn article_urls(listing: &str) -> (r: Vec<String>)
    ensures
        r.deep_view() == article_addresses(preview_scripts(listing@)),
{
    let scripts = read_previews(listing);
    addresses_of(&scripts)
}

/// Whether a table has rows, and each of them has exactly `width` cells.
pub open spec fn has_width(table: TableModel, width: int) -> bool {
    &&& table.rows.len() > 0
    &&& forall|i: int| 0 <= i < table.rows.len() ==> (#[trigger] table.rows[i]).len() == width
}

/// The places among the first `upto` tables of those whose rows all have `width`
/// cells, in rising order.
pub open spec fn places(tables: Seq<TableModel>, width: usize, upto: int) -> Seq<int>
    decreases upto,
{
    if upto <= 0 {
        Seq::empty()
    } else {
        let before = places(tables, width, upto - 1);
        if has_width(tables[upto - 1], width as int) {
            before.push(upto - 1)
        } else {
            before
        }
    }
}

/// The places of a page's legends.
pub open spec fn legend_places(tables: Seq<TableModel>) -> Seq<int> {
    places(tables, LEGEND_WIDTH, tables.len() as int)
}

/// The places of a page's grids.
pub open spec fn grid_places(tables: Seq<TableModel>) -> Seq<int> {
    places(tables, GRID_WIDTH, tables.len() as int)
}

/// The number of pairs that a page's legends and grids make: the first legend goes
/// with the first grid, the second with the second, until either runs out.
pub open spec fn pair_count(tables: Seq<TableModel>) -> int {
    if legend_places(tables).len() <= grid_places(tables).len() {
        legend_places(tables).len() as int
    } else {
        grid_places(tables).len() as int
    }
}

/// The quests of a grid under the map of the legend that goes with it.
pub open spec fn pair_events(
    legend: TableModel,
    grid: TableModel,
    url: Seq<char>,
    year: int,
    zone: Seq<char>,
) -> Seq<QuestModel> {
    grid_events(grid, legend_map(legend.rows, url), year, zone)
}

/// The quests of a page's first `upto` pairs.
pub open spec fn pairs_events(page: PageModel, upto: int, year: int, zone: Seq<char>) -> Seq<
    QuestModel,
>
    decreases upto,
{
    if upto <= 0 {
        Seq::empty()
    } else {
        pairs_events(page, upto - 1, year, zone) + pair_events(
            page.tables[legend_places(page.tables)[upto - 1]],
            page.tables[grid_places(page.tables)[upto - 1]],
            page.url,
            year,
            zone,
        )
    }
}

/// The quests of a page: those of its pairs, pair by pair.
pub open spec fn page_events(page: PageModel, year: int, zone: Seq<char>) -> Seq<QuestModel> {
    pairs_events(page, pair_count(page.tables), year, zone)
}

/// The legend of a page's pair `pair`.
pub open spec fn pair_legend(page: PageModel, pair: int) -> TableModel {
    page.tables[legend_places(page.tables)[pair]]
}

/// The grid of a page's pair `pair`.
pub open spec fn pair_grid(page: PageModel, pair: int) -> TableModel {
    page.tables[grid_places(page.tables)[pair]]
}

proof fn lemma_pairs_events_source(page: PageModel, upto: int, year: int, zone: Seq<char>, k: int)
    -> (place: (int, int))
    requires
        0 <= k < pairs_events(page, upto, year, zone).len(),
    ensures
        0 <= place.0 < upto,
        0 <= place.1 < pair_events(
            pair_legend(page, place.0),
            pair_grid(page, place.0),
            page.url,
            year,
            zone,
        ).len(),
        pair_events(pair_legend(page, place.0), pair_grid(page, place.0), page.url, year, zone)[place.1]
            == pairs_events(page, upto, year, zone)[k],
    decreases upto,
{
    let before = pairs_events(page, upto - 1, year, zone);
    if k < before.len() {
        lemma_pairs_events_source(page, upto - 1, year, zone, k)
    } else {
        (upto - 1, k - before.len())
    }
}

/// Every quest of a page comes from one of its pairs: it is a quest of that pair's
/// grid under that pair's legend, and its name is the text of the second cell of one
/// of the legend's rows, then `": "`, then the page's address.
pub proof fn lemma_page_event_source(page: PageModel, year: int, zone: Seq<char>, k: int) -> (place:
    (int, int, int))
    requires
        0 <= k < page_events(page, year, zone).len(),
    ensures
        0 <= place.0 < pair_count(page.tables),
        0 <= place.1 < pair_events(
            pair_legend(page, place.0),
            pair_grid(page, place.0),
            page.url,
            year,
            zone,
        ).len(),
        pair_events(pair_legend(page, place.0), pair_grid(page, place.0), page.url, year, zone)[place.1]
            == page_events(page, year, zone)[k],
        0 <= place.2 < pair_legend(page, place.0).rows.len(),
        pair_legend(page, place.0).rows[place.2].len() >= 2,
        page_events(page, year, zone)[k].name == pair_legend(page, place.0).rows[place.2][1].text
            + label_separator() + page.url,
{
    let found = lemma_pairs_events_source(page, pair_count(page.tables), year, zone, k);
    let legend = pair_legend(page, found.0);
    let grid = pair_grid(page, found.0);
    let labels = legend_map(legend.rows, page.url);
    let cell = lemma_grid_event_source(grid, labels, year, zone, found.1);
    let key = cell_key(grid.rows[cell.0][cell.1])->0;
    lemma_legend_keys_normal(legend.rows, page.url, key);
    let row = choose|i: int|
        0 <= i < legend.rows.len() && legend_entry(#[trigger] legend.rows[i], page.url) == Some(
            (key, labels[key]),
        );
    (found.0, found.1, row)
}

/// The models of the tables of a list.
pub open spec fn table_models(tables: Seq<Table>) -> Seq<TableModel> {
    tables.map_values(|t: Table| t@)
}

/// Tells whether a table has rows, and each of them has exactly `width` cells.
pub fn table_has_width(table: &Table, width: usize) -> (r: bool)
    ensures
        r == has_width(table@, width as int),
{
    if table.rows.len() == 0 {
        return false;
    }
    let mut i: usize = 0;
    while i < table.rows.len()
        invariant
            i <= table.rows.len(),
            forall|j: int| 0 <= j < i ==> (#[trigger] table@.rows[j]).len() == width,
        decreases table.rows.len() - i,
    {
        assert(table@.rows[i as int] == table.rows@[i as int]@);
        assert(table.rows@[i as int]@.len() == table.rows@[i as int].cells@.len());
        if table.rows[i].cells.len() != width {
            return false;
        }
        i += 1;
    }
    true
}

/// Finds the places of the tables whose rows all have `width` cells.
pub fn places_of(tables: &Vec<Table>, width: usize) -> (r: Vec<usize>)
    ensures
        r@.map_values(|p: usize| p as int) == places(
            table_models(tables@),
            width,
            tables.len() as int,
        ),
        forall|k: int| 0 <= k < r.len() ==> r[k] < tables.len(),
{
    let mut found: Vec<usize> = Vec::new();
    let mut i: usize = 0;
    assert(found@.map_values(|p: usize| p as int) =~= Seq::<int>::empty());
    while i < tables.len()
        invariant
            i <= tables.len(),
            found@.map_values(|p: usize| p as int) == places(
                table_models(tables@),
                width,
                i as int,
            ),
            forall|k: int| 0 <= k < found.len() ==> found[k] < tables.len(),
        decreases tables.len() - i,
    {
        assert(table_models(tables@)[i as int] == tables@[i as int]@);
        let ghost before = found@.map_values(|p: usize| p as int);
        if table_has_width(&tables[i], width) {
            found.push(i);
            assert(found@.map_values(|p: usize| p as int) =~= before.push(i as int));
        }
        i += 1;
    }
    found
}

/// Decodes every pair of a page under the time zone `zone` and appends the quests to
/// `quests`.
pub fn decode_page(page: &Page, year: i32, zone: &str, quests: &mut Vec<Quest>)
    ensures
        models(final(quests)@) == models(old(quests)@) + page_events(
            page@,
            year as int,
            zone@,
        ),
{
    let legends = places_of(&page.tables, LEGEND_WIDTH);
    let grids = places_of(&page.tables, GRID_WIDTH);
    let pairs = if legends.len() <= grids.len() {
        legends.len()
    } else {
        grids.len()
    };
    assert(page@.tables == table_models(page.tables@));
    assert(pairs as int == pair_count(page@.tables));
    let mut k: usize = 0;
    assert(models(quests@) =~= models(old(quests)@) + Seq::<QuestModel>::empty());
    while k < pairs
        invariant
            k <= pairs,
            pairs <= legends.len(),
            pairs <= grids.len(),
            page@.tables == table_models(page.tables@),
            legends@.map_values(|p: usize| p as int) == legend_places(page@.tables),
            grids@.map_values(|p: usize| p as int) == grid_places(page@.tables),
            forall|j: int| 0 <= j < legends.len() ==> legends[j] < page.tables.len(),
            forall|j: int| 0 <= j < grids.len() ==> grids[j] < page.tables.len(),
            models(quests@) == models(old(quests)@) + pairs_events(
                page@,
                k as int,
                year as int,
                zone@,
            ),
        decreases pairs - k,
    {
        let legend = &page.tables[legends[k]];
        let grid = &page.tables[grids[k]];
        proof {
            assert(legends@.map_values(|p: usize| p as int)[k as int] == legends[k as int]);
            assert(grids@.map_values(|p: usize| p as int)[k as int] == grids[k as int]);
            assert(page@.tables[legends[k as int] as int] == legend@);
            assert(page@.tables[grids[k as int] as int] == grid@);
        }
        let map = decode_legend(legend, page.url.as_str());
        decode_grid(grid, &map, year, zone, quests);
        assert(models(quests@) =~= models(old(quests)@) + pairs_events(
            page@,
            k + 1,
            year as int,
            zone@,
        ));
        k += 1;
    }
}

/// Decodes an article and appends its quests to `quests`. The times of the calendar
/// are those of [`SOURCE_ZONE`]. The calendar names its days without their year:
/// `year` supplies it, so that days which the calendar means for another year come
/// out a year off.
pub fn parse_news_site(html: &str, year: i32, quests: &mut Vec<Quest>)
    ensures
        models(final(quests)@) == models(old(quests)@) + page_events(
            page_model(html@),
            year as int,
            SOURCE_ZONE@,
        ),
{
    let page = read_page(html);
    decode_page(&page, year, SOURCE_ZONE, quests);
}

/// The quests of the pages `pages`, page by page.
pub open spec fn pages_events(pages: Seq<PageModel>, year: int, zone: Seq<char>) -> Seq<
    QuestModel,
>
    decreases pages.len(),
{
    if pages.len() == 0 {
        Seq::empty()
    } else {
        pages_events(pages.drop_last(), year, zone) + page_events(pages.last(), year, zone)
    }
}

/// Decodes the pages and gives their quests from the latest start to the earliest.
pub fn quests_of_pages(pages: &Vec<Page>, year: i32, zone: &str) -> (quests: Vec<Quest>)
    ensures
        descending(models(quests@)),
        models(quests@).to_multiset() == pages_events(
            pages@.map_values(|p: Page| p@),
            year as int,
            zone@,
        ).to_multiset(),
{
    let ghost all = pages@.map_values(|p: Page| p@);
    let mut found: Vec<Quest> = Vec::new();
    let mut i: usize = 0;
    assert(models(found@) =~= Seq::<QuestModel>::empty());
    while i < pages.len()
        invariant
            i <= pages.len(),
            all == pages@.map_values(|p: Page| p@),
            models(found@) == pages_events(all.take(i as int), year as int, zone@),
        decreases pages.len() - i,
    {
        proof {
            let upto = all.take(i + 1);
            assert(upto.drop_last() =~= all.take(i as int));
            assert(upto.last() == pages@[i as int]@);
        }
        decode_page(&pages[i], year, zone, &mut found);
        i += 1;
    }
    assert(all.take(i as int) =~= all);
    sort_descending(found)
}

/// The pages of the articles whose texts are `articles`.
pub open spec fn page_models(articles: Seq<Seq<char>>) -> Seq<PageModel> {
    articles.map_values(|html: Seq<char>| page_model(html))
}

/// Reads the articles whose texts are `articles` and gives the quests of all of them,
/// from the latest start to the earliest. `year` is the year of the days that the
/// articles name.
pub fn collect_quests(articles: &Vec<String>, year: i32) -> (quests: Vec<Quest>)
    ensures
        descending(models(quests@)),
        models(quests@).to_multiset() == pages_events(
            page_models(articles.deep_view()),
            year as int,
            SOURCE_ZONE@,
        ).to_multiset(),
{
    let mut pages: Vec<Page> = Vec::new();
    let mut i: usize = 0;
    assert(pages@.map_values(|p: Page| p@) =~= page_models(articles.deep_view().take(0)));
    while i < articles.len()
        invariant
            i <= articles.len(),
            pages@.map_values(|p: Page| p@) == page_models(articles.deep_view().take(i as int)),
        decreases articles.len() - i,
    {
        let ghost before = pages@.map_values(|p: Page| p@);
        let page = read_page(articles[i].as_str());
        pages.push(page);
        proof {
            let upto = articles.deep_view().take(i + 1);
            assert(upto[i as int] == articles@[i as int]@);
            assert(pages@.map_values(|p: Page| p@) =~= before.push(page@));
            assert(page_models(upto) =~= page_models(articles.deep_view().take(i as int)).push(
                page_model(articles@[i as int]@),
            ));
        }
        i += 1;
    }
    assert(articles.deep_view().take(i as int) =~= articles.deep_view());
    quests_of_pages(&pages, year, SOURCE_ZONE)
}

} // verus!
