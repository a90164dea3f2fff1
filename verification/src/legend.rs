//! The legend: from swatch colour to event label.

use crate::color::{
    background_of, color_key, declared_color, is_normal, normal, normalize, swatch, swatch_color,
};
use crate::table::{CellModel, Row, Table};
use crate::text::{is_trimmed, lemma_trimmed_is_trimmed, lowercased, trimmed};
use vstd::hash_map::StringHashMap;
use vstd::prelude::*;

verus! {

/// A map from colour to event label, for one pairing of a legend and a grid.
pub struct ColorMap {
    labels: StringHashMap<String>,
}

impl View for ColorMap {
    type V = Map<Seq<char>, Seq<char>>;

    closed spec fn view(&self) -> Map<Seq<char>, Seq<char>> {
        self.labels@.map_values(|label: String| label@)
    }
}

impl ColorMap {
    /// The map without entries.
    pub fn new() -> (r: ColorMap)
        ensures
            r@ == Map::<Seq<char>, Seq<char>>::empty(),
    {
        let labels: StringHashMap<String> = StringHashMap::new();
        assert(labels@.map_values(|label: String| label@) =~= Map::<
            Seq<char>,
            Seq<char>,
        >::empty());
        ColorMap { labels }
    }

    /// Puts `label` under `key`, in place of what was there.
    pub fn insert(&mut self, key: String, label: String)
        ensures
            final(self)@ == old(self)@.insert(key@, label@),
    {
        let ghost before = self.labels@;
        self.labels.insert(key, label);
        assert(self.labels@.map_values(|label: String| label@) =~= before.map_values(
            |label: String| label@,
        ).insert(key@, label@));
    }

    /// Looks up the label under `key`.
    pub fn get(&self, key: &str) -> (r: Option<&String>)
        ensures
            match r {
                Some(label) => self@.contains_key(key@) && self@[key@] == label@,
                None => !self@.contains_key(key@),
            },
    {
        self.labels.get(key)
    }

    /// Tells whether the map holds nothing.
    pub fn is_empty(&self) -> (r: bool)
        ensures
            r == (self@ == Map::<Seq<char>, Seq<char>>::empty()),
    {
        proof {
            let shown = self.labels@.map_values(|label: String| label@);
            if self.labels@.is_empty() {
                assert(shown =~= Map::<Seq<char>, Seq<char>>::empty());
            } else {
                let key = choose|key: Seq<char>| self.labels@.contains_key(key);
                assert(shown.contains_key(key));
            }
        }
        self.labels.is_empty()
    }
}

/// The two letters between an event's name and the address of its article.
pub open spec fn label_separator() -> Seq<char> {
    seq![':', ' ']
}

/// What one legend row says: the colour of its first cell, in normal form, and the
/// text of its second cell joined to the article's address. `None` for a row with
/// fewer than two cells, or whose first cell declares no background colour, or a
/// colour that is not settled in its normal form.
pub open spec fn legend_entry(row: Seq<CellModel>, url: Seq<char>) -> Option<
    (Seq<char>, Seq<char>),
> {
    if row.len() >= 2 {
        match row[0].style {
            Some(style) => match declared_color(style) {
                Some(css) => if is_normal(color_key(swatch_color(css))) {
                    Some((color_key(swatch_color(css)), row[1].text + label_separator() + url))
                } else {
                    None
                },
                None => None,
            },
            None => None,
        }
    } else {
        None
    }
}

/// The map `known`, extended by what the legend rows say, from top to bottom.
pub open spec fn legend_onto(
    known: Map<Seq<char>, Seq<char>>,
    rows: Seq<Seq<CellModel>>,
    url: Seq<char>,
) -> Map<Seq<char>, Seq<char>>
    decreases rows.len(),
{
    if rows.len() == 0 {
        known
    } else {
        let before = legend_onto(known, rows.drop_last(), url);
        match legend_entry(rows.last(), url) {
            Some((key, label)) => before.insert(key, label),
            None => before,
        }
    }
}

/// The map that a legend stands for.
pub open spec fn legend_map(rows: Seq<Seq<CellModel>>, url: Seq<char>) -> Map<
    Seq<char>,
    Seq<char>,
> {
    legend_onto(Map::empty(), rows, url)
}

/// Reads one legend row.
pub fn read_legend_row(row: &Row, url: &str) -> (r: Option<(String, String)>)
    ensures
        match r {
            Some((key, label)) => legend_entry(row@, url@) == Some((key@, label@)),
            None => legend_entry(row@, url@) is None,
        },
{
    if row.cells.len() < 2 {
        return None;
    }
    assert(row@[0] == row.cells@[0]@ && row@[1] == row.cells@[1]@);
    let style = match &row.cells[0].style {
        Some(style) => style,
        None => {
            return None;
        },
    };
    let css = match background_of(style.as_str()) {
        Some(css) => css,
        None => {
            return None;
        },
    };
    let color = swatch(css.as_str());
    let key = normalize(color.as_str());
    if !normal(key.as_str()) {
        return None;
    }
    proof {
        reveal_strlit(": ");
    }
    let mut label = row.cells[1].text.clone();
    label.append(": ");
    label.append(url);
    assert(label@ =~= row@[1].text + label_separator() + url@);
    Some((key, label))
}

/// Decodes a legend: one entry for each row that shows a colour, a later row
/// replacing an earlier one of the same colour.
pub fn decode_legend(legend: &Table, url: &str) -> (map: ColorMap)
    ensures
        map@ == legend_map(legend@.rows, url@),
{
    let mut map = ColorMap::new();
    let mut i: usize = 0;
    while i < legend.rows.len()
        invariant
            i <= legend.rows.len(),
            map@ == legend_map(legend@.rows.take(i as int), url@),
        decreases legend.rows.len() - i,
    {
        proof {
            let upto = legend@.rows.take(i + 1);
            assert(upto.drop_last() =~= legend@.rows.take(i as int));
            assert(upto.last() == legend.rows@[i as int]@);
        }
        match read_legend_row(&legend.rows[i], url) {
            Some((key, label)) => {
                map.insert(key, label);
            },
            None => {},
        }
        i += 1;
    }
    assert(legend@.rows.take(i as int) =~= legend@.rows);
    map
}

/// Every key of a decoded legend is trimmed and in lowercase: neither trimming nor
/// lowercasing changes it. It is the normal form of a colour, and stands with its
/// label in one of the rows.
pub proof fn lemma_legend_keys_normal(rows: Seq<Seq<CellModel>>, url: Seq<char>, key: Seq<char>)
    requires
        legend_map(rows, url).contains_key(key),
    ensures
        trimmed(key) == key,
        lowercased(key) == key,
        is_trimmed(key),
        exists|css: Seq<char>| key == #[trigger] color_key(css),
        exists|i: int|
            0 <= i < rows.len() && legend_entry(#[trigger] rows[i], url) == Some(
                (key, legend_map(rows, url)[key]),
            ),
    decreases rows.len(),
{
    if rows.len() > 0 {
        let rest = rows.drop_last();
        let last = rows.len() - 1;
        let fresh = match legend_entry(rows.last(), url) {
            Some((k, label)) => k == key,
            None => false,
        };
        if fresh {
            let css = swatch_color(declared_color(rows.last()[0].style->0)->0);
            assert(key == color_key(css));
            assert(is_normal(key));
            lemma_trimmed_is_trimmed(key);
            assert(legend_entry(rows[last], url) == Some((key, legend_map(rows, url)[key])));
        } else {
            lemma_legend_keys_normal(rest, url, key);
            let i = choose|i: int|
                0 <= i < rest.len() && legend_entry(#[trigger] rest[i], url) == Some(
                    (key, legend_map(rest, url)[key]),
                );
            assert(rest[i] == rows[i]);
        }
    }
}

/// Decoding rows onto a map gives that map, overlaid with what the rows alone decode to.
pub proof fn lemma_legend_onto_overlays(
    known: Map<Seq<char>, Seq<char>>,
    rows: Seq<Seq<CellModel>>,
    url: Seq<char>,
)
    ensures
        legend_onto(known, rows, url) == known.union_prefer_right(legend_map(rows, url)),
    decreases rows.len(),
{
    if rows.len() == 0 {
        assert(known.union_prefer_right(Map::<Seq<char>, Seq<char>>::empty()) =~= known);
    } else {
        lemma_legend_onto_overlays(known, rows.drop_last(), url);
        assert(legend_onto(known, rows, url) =~= known.union_prefer_right(
            legend_map(rows, url),
        ));
    }
}

/// Decoding a legend once more, onto the map that it gave, changes nothing.
pub proof fn lemma_legend_idempotent(rows: Seq<Seq<CellModel>>, url: Seq<char>)
    ensures
        legend_onto(legend_map(rows, url), rows, url) == legend_map(rows, url),
{
    let map = legend_map(rows, url);
    lemma_legend_onto_overlays(map, rows, url);
    assert(map.union_prefer_right(map) =~= map);
}

} // verus!
