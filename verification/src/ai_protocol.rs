use crate::text::{
    find_char, find_pair, first_index_of, first_pair_index, is_white, is_white_char,
    parse_unsigned, parse_unsigned_range, range_eq_str, range_starts_with, split_char,
    split_ranges, string_of_range, trim, trim_bounds, ws_tokens, chars_of,
};
use vstd::prelude::*;

verus! {

broadcast use vstd::string::group_string_axioms;

/// What the AI client sees of one tile in the answer to `Look`.
#[derive(Debug, Clone, Copy)]
pub struct TileView {
    pub players: u32,
    pub food: u32,
    pub linemate: u32,
    pub deraumere: u32,
    pub sibur: u32,
    pub mendiane: u32,
    pub phiras: u32,
    pub thystame: u32,
}

impl Default for TileView {
    fn default() -> (tile: Self)
        ensures
            tile == empty_tile(),
    {
        TileView {
            players: 0,
            food: 0,
            linemate: 0,
            deraumere: 0,
            sibur: 0,
            mendiane: 0,
            phiras: 0,
            thystame: 0,
        }
    }
}

pub open spec fn empty_tile() -> TileView {
    TileView {
        players: 0,
        food: 0,
        linemate: 0,
        deraumere: 0,
        sibur: 0,
        mendiane: 0,
        phiras: 0,
        thystame: 0,
    }
}

impl TileView {
    /// The seven resource counts, food first and thystame last.
    pub fn resources(&self) -> (r: [u32; 7])
        ensures
            r@ == seq![
                self.food,
                self.linemate,
                self.deraumere,
                self.sibur,
                self.mendiane,
                self.phiras,
                self.thystame,
            ],
    {
        let r = [
            self.food,
            self.linemate,
            self.deraumere,
            self.sibur,
            self.mendiane,
            self.phiras,
            self.thystame,
        ];
        assert(r@ =~= seq![
            self.food,
            self.linemate,
            self.deraumere,
            self.sibur,
            self.mendiane,
            self.phiras,
            self.thystame,
        ]);
        r
    }
}

/// A line that the server sends to an AI client, once parsed.
#[derive(Debug, Clone)]
pub enum ServerResponse {
    Okay,
    Ko,
    Dead,
    Message { direction: u8, text: String },
    Eject { direction: u8 },
    Inventory {
        food: u32,
        linemate: u32,
        deraumere: u32,
        sibur: u32,
        mendiane: u32,
        phiras: u32,
        thystame: u32,
    },
    Look(Vec<TileView>),
    ConnectNbr(u32),
    ElevationUnderway,
    CurrentLevel(u32),
}

/// The mathematical value of a [`ServerResponse`].
pub enum ResponseView {
    Okay,
    Ko,
    Dead,
    Message { direction: u8, text: Seq<char> },
    Eject { direction: u8 },
    Inventory {
        food: u32,
        linemate: u32,
        deraumere: u32,
        sibur: u32,
        mendiane: u32,
        phiras: u32,
        thystame: u32,
    },
    Look(Seq<TileView>),
    ConnectNbr(u32),
    ElevationUnderway,
    CurrentLevel(u32),
}

impl View for ServerResponse {
    type V = ResponseView;

    open spec fn view(&self) -> ResponseView {
        match self {
            ServerResponse::Okay => ResponseView::Okay,
            ServerResponse::Ko => ResponseView::Ko,
            ServerResponse::Dead => ResponseView::Dead,
            ServerResponse::Message { direction, text } => ResponseView::Message {
                direction: *direction,
                text: text@,
            },
            ServerResponse::Eject { direction } => ResponseView::Eject { direction: *direction },
            ServerResponse::Inventory {
                food,
                linemate,
                deraumere,
                sibur,
                mendiane,
                phiras,
                thystame,
            } => ResponseView::Inventory {
                food: *food,
                linemate: *linemate,
                deraumere: *deraumere,
                sibur: *sibur,
                mendiane: *mendiane,
                phiras: *phiras,
                thystame: *thystame,
            },
            ServerResponse::Look(tiles) => ResponseView::Look(tiles@),
            ServerResponse::ConnectNbr(n) => ResponseView::ConnectNbr(*n),
            ServerResponse::ElevationUnderway => ResponseView::ElevationUnderway,
            ServerResponse::CurrentLevel(n) => ResponseView::CurrentLevel(*n),
        }
    }
}

pub open spec fn response_view(r: Option<ServerResponse>) -> Option<ResponseView> {
    match r {
        Some(x) => Some(x@),
        None => None,
    }
}

// ---------------------------------------------------------------- Look

/// How many of the tokens `toks` are `w`.
pub open spec fn count_tokens(toks: Seq<Seq<char>>, w: Seq<char>) -> nat
    decreases toks.len(),
{
    if toks.len() == 0 {
        0
    } else {
        count_tokens(toks.drop_last(), w) + if toks.last() == w {
            1nat
        } else {
            0nat
        }
    }
}

proof fn lemma_count_tokens_push(toks: Seq<Seq<char>>, t: Seq<char>, w: Seq<char>)
    ensures
        count_tokens(toks.push(t), w) == count_tokens(toks, w) + if t == w {
            1nat
        } else {
            0nat
        },
{
    assert(toks.push(t).drop_last() =~= toks);
}

/// The tokens of a prefix count no more copies of `w` than the whole.
proof fn lemma_count_tokens_prefix(x: Seq<Seq<char>>, y: Seq<Seq<char>>, w: Seq<char>)
    ensures
        count_tokens(x, w) <= count_tokens(x + y, w),
    decreases y.len(),
{
    if y.len() == 0 {
        assert(x + y =~= x);
    } else {
        lemma_count_tokens_prefix(x, y.drop_last(), w);
        assert((x + y).drop_last() =~= x + y.drop_last());
    }
}

/// Every word of a tile is counted at most `u32::MAX` times, so that the
/// counts fit the tile's fields.
pub open spec fn counts_fit(toks: Seq<Seq<char>>) -> bool {
    &&& count_tokens(toks, "player"@) <= u32::MAX
    &&& count_tokens(toks, "food"@) <= u32::MAX
    &&& count_tokens(toks, "linemate"@) <= u32::MAX
    &&& count_tokens(toks, "deraumere"@) <= u32::MAX
    &&& count_tokens(toks, "sibur"@) <= u32::MAX
    &&& count_tokens(toks, "mendiane"@) <= u32::MAX
    &&& count_tokens(toks, "phiras"@) <= u32::MAX
    &&& count_tokens(toks, "thystame"@) <= u32::MAX
}

proof fn lemma_counts_fit_prefix(x: Seq<Seq<char>>, y: Seq<Seq<char>>)
    requires
        counts_fit(x + y),
    ensures
        counts_fit(x),
{
    lemma_count_tokens_prefix(x, y, "player"@);
    lemma_count_tokens_prefix(x, y, "food"@);
    lemma_count_tokens_prefix(x, y, "linemate"@);
    lemma_count_tokens_prefix(x, y, "deraumere"@);
    lemma_count_tokens_prefix(x, y, "sibur"@);
    lemma_count_tokens_prefix(x, y, "mendiane"@);
    lemma_count_tokens_prefix(x, y, "phiras"@);
    lemma_count_tokens_prefix(x, y, "thystame"@);
}

/// No word of the tile `part` occurs more than `u32::MAX` times.
pub open spec fn tile_fits(part: Seq<char>) -> bool {
    counts_fit(ws_tokens(part))
}

/// Every tile of the `Look` answer `line` fits (see `tile_fits`).
pub open spec fn look_fits(line: Seq<char>) -> bool {
    let parts = split_char(bracket_inner(line), ',');
    forall|j: int| 0 <= j < parts.len() ==> tile_fits(#[trigger] parts[j])
}

/// One tile of a `Look` answer: each word of it counted.
pub open spec fn spec_tile(part: Seq<char>) -> TileView {
    let toks = ws_tokens(part);
    TileView {
        players: count_tokens(toks, "player"@) as u32,
        food: count_tokens(toks, "food"@) as u32,
        linemate: count_tokens(toks, "linemate"@) as u32,
        deraumere: count_tokens(toks, "deraumere"@) as u32,
        sibur: count_tokens(toks, "sibur"@) as u32,
        mendiane: count_tokens(toks, "mendiane"@) as u32,
        phiras: count_tokens(toks, "phiras"@) as u32,
        thystame: count_tokens(toks, "thystame"@) as u32,
    }
}

spec fn tile_counts(t: TileView, toks: Seq<Seq<char>>) -> bool {
    &&& t.players == count_tokens(toks, "player"@)
    &&& t.food == count_tokens(toks, "food"@)
    &&& t.linemate == count_tokens(toks, "linemate"@)
    &&& t.deraumere == count_tokens(toks, "deraumere"@)
    &&& t.sibur == count_tokens(toks, "sibur"@)
    &&& t.mendiane == count_tokens(toks, "mendiane"@)
    &&& t.phiras == count_tokens(toks, "phiras"@)
    &&& t.thystame == count_tokens(toks, "thystame"@)
}

/// Counts the token `v[a..b]` into `tile`.
fn count_token_into(tile: &mut TileView, v: &Vec<char>, a: usize, b: usize, Ghost(done): Ghost<
    Seq<Seq<char>>,
>)
    requires
        a <= b <= v@.len(),
        tile_counts(*old(tile), done),
        counts_fit(done.push(v@.subrange(a as int, b as int))),
    ensures
        tile_counts(*final(tile), done.push(v@.subrange(a as int, b as int))),
{
    let ghost tok = v@.subrange(a as int, b as int);
    proof {
        lemma_count_tokens_push(done, tok, "player"@);
        lemma_count_tokens_push(done, tok, "food"@);
        lemma_count_tokens_push(done, tok, "linemate"@);
        lemma_count_tokens_push(done, tok, "deraumere"@);
        lemma_count_tokens_push(done, tok, "sibur"@);
        lemma_count_tokens_push(done, tok, "mendiane"@);
        lemma_count_tokens_push(done, tok, "phiras"@);
        lemma_count_tokens_push(done, tok, "thystame"@);
    }
    if range_eq_str(v, a, b, "player") {
        tile.players = tile.players + 1;
    }
    if range_eq_str(v, a, b, "food") {
        tile.food = tile.food + 1;
    }
    if range_eq_str(v, a, b, "linemate") {
        tile.linemate = tile.linemate + 1;
    }
    if range_eq_str(v, a, b, "deraumere") {
        tile.deraumere = tile.deraumere + 1;
    }
    if range_eq_str(v, a, b, "sibur") {
        tile.sibur = tile.sibur + 1;
    }
    if range_eq_str(v, a, b, "mendiane") {
        tile.mendiane = tile.mendiane + 1;
    }
    if range_eq_str(v, a, b, "phiras") {
        tile.phiras = tile.phiras + 1;
    }
    if range_eq_str(v, a, b, "thystame") {
        tile.thystame = tile.thystame + 1;
    }
}

proof fn lemma_count_tokens_bound(toks: Seq<Seq<char>>, w: Seq<char>)
    ensures
        count_tokens(toks, w) <= toks.len(),
    decreases toks.len(),
{
    if toks.len() > 0 {
        lemma_count_tokens_bound(toks.drop_last(), w);
    }
}

proof fn lemma_strip_len(s: Seq<char>, c: char)
    ensures
        strip_leading(s, c).len() <= s.len(),
        strip_trailing(s, c).len() <= s.len(),
    decreases s.len(),
{
    if s.len() > 0 {
        lemma_strip_len(s.drop_first(), c);
        lemma_strip_len(s.drop_last(), c);
    }
}

/// A line of at most `u32::MAX` characters cannot hold a word more often
/// than a tile counts, so each of its tiles fits.
pub proof fn lemma_look_fits_short(line: Seq<char>)
    requires
        line.len() <= u32::MAX,
    ensures
        look_fits(line),
{
    lemma_strip_len(line, '[');
    lemma_strip_len(strip_leading(line, '['), ']');
    let inner = bracket_inner(line);
    let parts = split_char(inner, ',');
    crate::text::lemma_split_char_part_len(inner, ',');
    assert forall|j: int| 0 <= j < parts.len() implies tile_fits(#[trigger] parts[j]) by {
        let toks = ws_tokens(parts[j]);
        crate::text::lemma_ws_tokens_len(parts[j]);
        lemma_count_tokens_bound(toks, "player"@);
        lemma_count_tokens_bound(toks, "food"@);
        lemma_count_tokens_bound(toks, "linemate"@);
        lemma_count_tokens_bound(toks, "deraumere"@);
        lemma_count_tokens_bound(toks, "sibur"@);
        lemma_count_tokens_bound(toks, "mendiane"@);
        lemma_count_tokens_bound(toks, "phiras"@);
        lemma_count_tokens_bound(toks, "thystame"@);
    }
}

/// Every line of at most `u32::MAX` characters fits (see `response_fits`).
pub proof fn lemma_response_fits_short(line: Seq<char>)
    requires
        line.len() <= u32::MAX,
    ensures
        response_fits(line),
{
    crate::text::lemma_trim_len(line);
    lemma_look_fits_short(trim(line));
}

/// The tile that `v[lo..hi]` describes.
fn tile_of_range(v: &Vec<char>, lo: usize, hi: usize) -> (tile: TileView)
    requires
        lo <= hi <= v@.len(),
        tile_fits(v@.subrange(lo as int, hi as int)),
    ensures
        tile == spec_tile(v@.subrange(lo as int, hi as int)),
{
    let mut tile = TileView::default();
    let ghost mut done: Seq<Seq<char>> = Seq::empty();
    let ghost whole = v@.subrange(lo as int, hi as int);
    let mut in_token = false;
    let mut ts = lo;
    let mut i = lo;
    assert(v@.subrange(lo as int, lo as int) =~= Seq::<char>::empty());
    while i < hi
        invariant
            lo <= ts <= i <= hi <= v@.len(),
            whole == v@.subrange(lo as int, hi as int),
            tile_fits(whole),
            tile_counts(tile, done),
            !in_token ==> ws_tokens(v@.subrange(lo as int, i as int)) == done,
            !in_token && i > lo ==> is_white(v@[i - 1]),
            in_token ==> ts < i && ws_tokens(v@.subrange(lo as int, i as int)) == done.push(
                v@.subrange(ts as int, i as int),
            ),
            in_token ==> !is_white(v@[i - 1]),
        decreases hi - i,
    {
        let c = v[i];
        let ghost prev = v@.subrange(lo as int, i as int);
        assert(v@.subrange(lo as int, i + 1).drop_last() =~= prev);
        if is_white_char(c) {
            if in_token {
                proof {
                    let head = v@.subrange(lo as int, i + 1);
                    let rest = v@.subrange(i + 1, hi as int);
                    assert(ws_tokens(head) == ws_tokens(prev));
                    assert(head + rest =~= whole);
                    crate::text::lemma_ws_tokens_concat(head, rest);
                    lemma_counts_fit_prefix(ws_tokens(head), ws_tokens(rest));
                }
                count_token_into(&mut tile, v, ts, i, Ghost(done));
                proof {
                    done = done.push(v@.subrange(ts as int, i as int));
                }
                in_token = false;
            }
        } else {
            if in_token {
                assert(v@.subrange(ts as int, i as int).push(c) =~= v@.subrange(ts as int, i + 1));
                assert(v@.subrange(lo as int, i + 1)[(i + 1 - lo) - 2] == v@[i - 1]);
                assert(done.push(v@.subrange(ts as int, i as int)).update(
                    done.len() as int,
                    v@.subrange(ts as int, i + 1),
                ) =~= done.push(v@.subrange(ts as int, i + 1)));
            } else {
                if i > lo {
                    assert(v@.subrange(lo as int, i + 1)[(i + 1 - lo) - 2] == v@[i - 1]);
                }
                assert(seq![c] =~= v@.subrange(i as int, i + 1));
                ts = i;
                in_token = true;
            }
        }
        i = i + 1;
    }
    if in_token {
        count_token_into(&mut tile, v, ts, hi, Ghost(done));
        proof {
            done = done.push(v@.subrange(ts as int, hi as int));
        }
    }
    tile
}

/// `s` without the leading copies of `c` (`str::trim_start_matches`).
pub open spec fn strip_leading(s: Seq<char>, c: char) -> Seq<char>
    decreases s.len(),
{
    if s.len() > 0 && s[0] == c {
        strip_leading(s.drop_first(), c)
    } else {
        s
    }
}

/// `s` without the trailing copies of `c` (`str::trim_end_matches`).
pub open spec fn strip_trailing(s: Seq<char>, c: char) -> Seq<char>
    decreases s.len(),
{
    if s.len() > 0 && s.last() == c {
        strip_trailing(s.drop_last(), c)
    } else {
        s
    }
}

/// What is left of a bracketed list once its brackets are taken off.
pub open spec fn bracket_inner(s: Seq<char>) -> Seq<char> {
    strip_trailing(strip_leading(s, '['), ']')
}

/// Bounds of `bracket_inner` of `v[lo..hi]`.
fn bracket_inner_bounds(v: &Vec<char>, lo: usize, hi: usize) -> (r: (usize, usize))
    requires
        lo <= hi <= v@.len(),
    ensures
        lo <= r.0 <= r.1 <= hi,
        v@.subrange(r.0 as int, r.1 as int) == bracket_inner(v@.subrange(lo as int, hi as int)),
{
    let mut a = lo;
    while a < hi && v[a] == '['
        invariant
            lo <= a <= hi <= v@.len(),
            strip_leading(v@.subrange(lo as int, hi as int), '[') == strip_leading(
                v@.subrange(a as int, hi as int),
                '[',
            ),
        decreases hi - a,
    {
        assert(v@.subrange(a as int, hi as int).drop_first() =~= v@.subrange(a + 1, hi as int));
        a = a + 1;
    }
    let mut b = hi;
    while b > a && v[b - 1] == ']'
        invariant
            lo <= a <= b <= hi <= v@.len(),
            bracket_inner(v@.subrange(lo as int, hi as int)) == strip_trailing(
                v@.subrange(a as int, b as int),
                ']',
            ),
        decreases b - a,
    {
        assert(v@.subrange(a as int, b as int).drop_last() =~= v@.subrange(a as int, b - 1));
        b = b - 1;
    }
    (a, b)
}

/// The tiles of a `Look` answer, one per comma-separated part.
pub open spec fn spec_parse_look(line: Seq<char>) -> Seq<TileView> {
    split_char(bracket_inner(line), ',').map_values(|p: Seq<char>| spec_tile(p))
}

fn parse_look_range(v: &Vec<char>, lo: usize, hi: usize) -> (tiles: Vec<TileView>)
    requires
        lo <= hi <= v@.len(),
        look_fits(v@.subrange(lo as int, hi as int)),
    ensures
        tiles@ == spec_parse_look(v@.subrange(lo as int, hi as int)),
{
    let (a, b) = bracket_inner_bounds(v, lo, hi);
    let ranges = split_ranges(v, a, b, ',');
    let ghost parts = split_char(v@.subrange(a as int, b as int), ',');
    let mut tiles: Vec<TileView> = Vec::new();
    let mut k: usize = 0;
    while k < ranges.len()
        invariant
            lo <= a <= b <= hi <= v@.len(),
            forall|j: int| 0 <= j < parts.len() ==> tile_fits(#[trigger] parts[j]),
            ranges@.len() == parts.len(),
            forall|j: int|
                0 <= j < ranges@.len() ==> a <= (#[trigger] ranges@[j]).0 <= ranges@[j].1 <= b
                    && v@.subrange(ranges@[j].0 as int, ranges@[j].1 as int) == parts[j],
            k <= ranges@.len(),
            tiles@ == parts.take(k as int).map_values(|p: Seq<char>| spec_tile(p)),
        decreases ranges@.len() - k,
    {
        let (pa, pb) = ranges[k];
        let t = tile_of_range(v, pa, pb);
        tiles.push(t);
        assert(parts.take(k + 1).map_values(|p: Seq<char>| spec_tile(p)) =~= parts.take(
            k as int,
        ).map_values(|p: Seq<char>| spec_tile(p)).push(spec_tile(parts[k as int])));
        k = k + 1;
    }
    assert(parts.take(k as int) =~= parts);
    tiles
}

/// The tiles of a `Look` answer `[tile, tile, ...]`.
pub fn parse_look(line: &str) -> (tiles: Vec<TileView>)
    requires
        look_fits(line@),
    ensures
        tiles@ == spec_parse_look(line@),
{
    let v = chars_of(line);
    assert(v@.subrange(0, v@.len() as int) =~= v@);
    parse_look_range(&v, 0, v.len())
}

// ---------------------------------------------------------------- Inventory

/// Position of a resource name in the inventory, food first.
#[verifier::opaque]
pub open spec fn resource_key_index(key: Seq<char>) -> Option<int> {
    if key == "food"@ {
        Some(0)
    } else if key == "linemate"@ {
        Some(1)
    } else if key == "deraumere"@ {
        Some(2)
    } else if key == "sibur"@ {
        Some(3)
    } else if key == "mendiane"@ {
        Some(4)
    } else if key == "phiras"@ {
        Some(5)
    } else if key == "thystame"@ {
        Some(6)
    } else {
        None
    }
}

fn key_index_of_range(v: &Vec<char>, lo: usize, hi: usize) -> (r: Option<usize>)
    requires
        lo <= hi <= v@.len(),
    ensures
        match resource_key_index(v@.subrange(lo as int, hi as int)) {
            Some(i) => r == Some(i as usize),
            None => r is None,
        },
        r matches Some(i) ==> i < 7,
{
    reveal(resource_key_index);
    if range_eq_str(v, lo, hi, "food") {
        Some(0)
    } else if range_eq_str(v, lo, hi, "linemate") {
        Some(1)
    } else if range_eq_str(v, lo, hi, "deraumere") {
        Some(2)
    } else if range_eq_str(v, lo, hi, "sibur") {
        Some(3)
    } else if range_eq_str(v, lo, hi, "mendiane") {
        Some(4)
    } else if range_eq_str(v, lo, hi, "phiras") {
        Some(5)
    } else if range_eq_str(v, lo, hi, "thystame") {
        Some(6)
    } else {
        None
    }
}

/// One `key value` entry of an inventory: the resource position of the key
/// (`None` for a key that is no resource) and the value; `None` when the entry
/// has no space or no number after it.
pub open spec fn inventory_entry(part: Seq<char>) -> Option<(Option<int>, u32)> {
    let t = trim(part);
    match first_index_of(t, ' ') {
        None => None,
        Some(i) => match parse_unsigned(trim(t.skip(i + 1)), u32::MAX as nat) {
            None => None,
            Some(n) => Some((resource_key_index(trim(t.take(i))), n as u32)),
        },
    }
}

/// The seven counts that the entries `parts` set, in order, starting from zero.
pub open spec fn inventory_fold(parts: Seq<Seq<char>>) -> Option<Seq<u32>>
    decreases parts.len(),
{
    if parts.len() == 0 {
        Some(Seq::new(7, |i: int| 0u32))
    } else {
        match inventory_fold(parts.drop_last()) {
            None => None,
            Some(acc) => match inventory_entry(parts.last()) {
                None => None,
                Some(entry) => Some(
                    match entry.0 {
                        Some(i) => acc.update(i, entry.1),
                        None => acc,
                    },
                ),
            },
        }
    }
}

proof fn lemma_resource_key_index_range(key: Seq<char>)
    ensures
        resource_key_index(key) matches Some(i) ==> 0 <= i < 7,
{
    reveal(resource_key_index);
}

proof fn lemma_inventory_fold_len(parts: Seq<Seq<char>>)
    ensures
        inventory_fold(parts) matches Some(acc) ==> acc.len() == 7,
    decreases parts.len(),
{
    if parts.len() > 0 {
        lemma_inventory_fold_len(parts.drop_last());
        lemma_resource_key_index_range(trim(parts.last()));
        let t = trim(parts.last());
        if let Some(i) = first_index_of(t, ' ') {
            lemma_resource_key_index_range(trim(t.take(i)));
        }
    }
}

proof fn lemma_inventory_fold_none(parts: Seq<Seq<char>>, j: int)
    requires
        0 <= j <= parts.len(),
        inventory_fold(parts.take(j)) is None,
    ensures
        inventory_fold(parts) is None,
    decreases parts.len() - j,
{
    if j == parts.len() {
        assert(parts.take(j) =~= parts);
    } else {
        assert(parts.drop_last().take(j) =~= parts.take(j));
        lemma_inventory_fold_none(parts.drop_last(), j);
    }
}

/// The `Inventory` answer that `line` holds, if every entry of it is well formed.
pub open spec fn spec_parse_inventory(line: Seq<char>) -> Option<ResponseView> {
    match inventory_fold(split_char(bracket_inner(line), ',')) {
        Some(acc) => Some(
            ResponseView::Inventory {
                food: acc[0],
                linemate: acc[1],
                deraumere: acc[2],
                sibur: acc[3],
                mendiane: acc[4],
                phiras: acc[5],
                thystame: acc[6],
            },
        ),
        None => None,
    }
}

#[verifier::rlimit(40)]
fn inventory_entry_of_range(v: &Vec<char>, pa: usize, pb: usize) -> (r: Option<(Option<usize>, u32)>)
    requires
        pa <= pb <= v@.len(),
    ensures
        match inventory_entry(v@.subrange(pa as int, pb as int)) {
            None => r is None,
            Some(e) => r matches Some(x) && x.1 == e.1 && match e.0 {
                Some(i) => 0 <= i < 7 && x.0 == Some(i as usize),
                None => x.0 is None,
            },
        },
        r matches Some(x) ==> (x.0 matches Some(i) ==> i < 7),
{
    let ghost part = v@.subrange(pa as int, pb as int);
    let (ta, tb) = trim_bounds(v, pa, pb);
    let ghost t = trim(part);
    assert(t == v@.subrange(ta as int, tb as int));
    let sp = find_char(v, ta, tb, ' ');
    match sp {
        None => {
            assert(first_index_of(t, ' ') is None);
            assert(inventory_entry(part) is None);
            None
        },
        Some(sp) => {
            let ghost i = sp - ta;
            assert(v@.subrange(sp + 1, tb as int) =~= t.skip(i + 1));
            assert(v@.subrange(ta as int, sp as int) =~= t.take(i));
            assert(first_index_of(t, ' ') == Some(i));
            let (va, vb) = trim_bounds(v, sp + 1, tb);
            assert(v@.subrange(va as int, vb as int) == trim(t.skip(i + 1)));
            match parse_unsigned_range(v, va, vb, u32::MAX) {
                None => {
                    assert(inventory_entry(part) is None);
                    None
                },
                Some(n) => {
                    let (ka, kb) = trim_bounds(v, ta, sp);
                    assert(v@.subrange(ka as int, kb as int) == trim(t.take(i)));
                    let key = key_index_of_range(v, ka, kb);
                    proof {
                        lemma_resource_key_index_range(trim(t.take(i)));
                    }
                    assert(inventory_entry(part) == Some((resource_key_index(trim(t.take(i))), n)));
                    Some((key, n))
                },
            }
        },
    }
}

fn parse_inventory_range(v: &Vec<char>, lo: usize, hi: usize) -> (r: Option<ServerResponse>)
    requires
        lo <= hi <= v@.len(),
    ensures
        response_view(r) == spec_parse_inventory(v@.subrange(lo as int, hi as int)),
{
    let (a, b) = bracket_inner_bounds(v, lo, hi);
    let ranges = split_ranges(v, a, b, ',');
    let ghost parts = split_char(v@.subrange(a as int, b as int), ',');
    let mut acc: Vec<u32> = vec![0, 0, 0, 0, 0, 0, 0];
    assert(parts.take(0) =~= Seq::<Seq<char>>::empty());
    assert(acc@ =~= Seq::new(7, |i: int| 0u32));
    let mut k: usize = 0;
    while k < ranges.len()
        invariant
            lo <= a <= b <= hi <= v@.len(),
            ranges@.len() == parts.len(),
            parts == split_char(v@.subrange(a as int, b as int), ','),
            bracket_inner(v@.subrange(lo as int, hi as int)) == v@.subrange(a as int, b as int),
            forall|j: int|
                0 <= j < ranges@.len() ==> a <= (#[trigger] ranges@[j]).0 <= ranges@[j].1 <= b
                    && v@.subrange(ranges@[j].0 as int, ranges@[j].1 as int) == parts[j],
            k <= ranges@.len(),
            inventory_fold(parts.take(k as int)) == Some(acc@),
            acc@.len() == 7,
        decreases ranges@.len() - k,
    {
        let (pa, pb) = ranges[k];
        let ghost part = parts[k as int];
        assert(parts.take(k + 1).drop_last() =~= parts.take(k as int));
        assert(parts.take(k + 1).last() == part);
        assert(v@.subrange(pa as int, pb as int) == part);
        match inventory_entry_of_range(v, pa, pb) {
            None => {
                proof {
                    assert(inventory_entry(part) is None);
                    assert(inventory_fold(parts.take(k + 1)) is None);
                    lemma_inventory_fold_none(parts, k + 1);
                }
                return None;
            },
            Some((key, n)) => {
                match key {
                    Some(idx) => {
                        acc.set(idx, n);
                    },
                    None => {},
                }
            },
        }
        k = k + 1;
    }
    assert(parts.take(k as int) =~= parts);
    Some(
        ServerResponse::Inventory {
            food: acc[0],
            linemate: acc[1],
            deraumere: acc[2],
            sibur: acc[3],
            mendiane: acc[4],
            phiras: acc[5],
            thystame: acc[6],
        },
    )
}

/// The `Inventory` answer `[food n, linemate n, ...]`; `None` when an entry
/// lacks its number.
pub fn parse_inventory(line: &str) -> (r: Option<ServerResponse>)
    ensures
        response_view(r) == spec_parse_inventory(line@),
{
    let v = chars_of(line);
    assert(v@.subrange(0, v@.len() as int) =~= v@);
    parse_inventory_range(&v, 0, v.len())
}


// ---------------------------------------------------------------- Whole lines

/// Whether one comma-separated part of a bracketed answer reads as a
/// `resource number` inventory entry.
pub open spec fn is_inventory_part(part: Seq<char>) -> bool {
    let t = trim(part);
    match first_index_of(t, ' ') {
        None => false,
        Some(i) => resource_key_index(t.take(i)) is Some && parse_unsigned(
            trim(t.skip(i + 1)),
            u32::MAX as nat,
        ) is Some,
    }
}

/// A bracketed answer is taken for an inventory when one of its parts reads
/// as an inventory entry, and for a `Look` answer otherwise.
pub open spec fn looks_like_inventory(line: Seq<char>) -> bool {
    exists|k: int|
        0 <= k < split_char(line, ',').len() && is_inventory_part(
            #[trigger] split_char(line, ',')[k],
        )
}

fn is_inventory_part_range(v: &Vec<char>, pa: usize, pb: usize) -> (b: bool)
    requires
        pa <= pb <= v@.len(),
    ensures
        b == is_inventory_part(v@.subrange(pa as int, pb as int)),
{
    let ghost part = v@.subrange(pa as int, pb as int);
    let (ta, tb) = trim_bounds(v, pa, pb);
    let ghost t = trim(part);
    match find_char(v, ta, tb, ' ') {
        None => false,
        Some(sp) => {
            let ghost i = sp - ta;
            assert(v@.subrange(sp + 1, tb as int) =~= t.skip(i + 1));
            assert(v@.subrange(ta as int, sp as int) =~= t.take(i));
            let key = key_index_of_range(v, ta, sp);
            if key.is_none() {
                return false;
            }
            let (va, vb) = trim_bounds(v, sp + 1, tb);
            parse_unsigned_range(v, va, vb, u32::MAX).is_some()
        },
    }
}

fn looks_like_inventory_range(v: &Vec<char>, lo: usize, hi: usize) -> (b: bool)
    requires
        lo <= hi <= v@.len(),
    ensures
        b == looks_like_inventory(v@.subrange(lo as int, hi as int)),
{
    let ranges = split_ranges(v, lo, hi, ',');
    let ghost parts = split_char(v@.subrange(lo as int, hi as int), ',');
    let mut k: usize = 0;
    while k < ranges.len()
        invariant
            lo <= hi <= v@.len(),
            ranges@.len() == parts.len(),
            parts == split_char(v@.subrange(lo as int, hi as int), ','),
            forall|j: int|
                0 <= j < ranges@.len() ==> lo <= (#[trigger] ranges@[j]).0 <= ranges@[j].1 <= hi
                    && v@.subrange(ranges@[j].0 as int, ranges@[j].1 as int) == parts[j],
            k <= ranges@.len(),
            forall|j: int| 0 <= j < k ==> !is_inventory_part(#[trigger] parts[j]),
        decreases ranges@.len() - k,
    {
        let (pa, pb) = ranges[k];
        assert(v@.subrange(pa as int, pb as int) == parts[k as int]);
        if is_inventory_part_range(v, pa, pb) {
            return true;
        }
        k = k + 1;
    }
    false
}

/// A `message K, text` line once `message ` is taken off.
pub open spec fn spec_parse_message(rest: Seq<char>) -> Option<ResponseView> {
    match first_pair_index(rest, ',', ' ') {
        Some(i) => match parse_unsigned(rest.take(i), u8::MAX as nat) {
            Some(k) => Some(ResponseView::Message { direction: k as u8, text: rest.skip(i + 2) }),
            None => None,
        },
        None => match parse_unsigned(rest, u8::MAX as nat) {
            Some(k) => Some(ResponseView::Message { direction: k as u8, text: Seq::empty() }),
            None => None,
        },
    }
}

/// A line that reads as a `Look` answer has tiles whose counts fit (see
/// `look_fits`); any other line fits as it is.
pub open spec fn response_fits(line: Seq<char>) -> bool {
    let t = trim(line);
    t.len() > 0 && t[0] == '[' && t.last() == ']' && !looks_like_inventory(t) ==> look_fits(t)
}

/// The answer that one line from the server holds.
pub open spec fn spec_parse_response(line: Seq<char>) -> Option<ResponseView> {
    let t = trim(line);
    if t == "ok"@ {
        Some(ResponseView::Okay)
    } else if t == "ko"@ {
        Some(ResponseView::Ko)
    } else if t == "dead"@ {
        Some(ResponseView::Dead)
    } else if t == "Elevation underway"@ {
        Some(ResponseView::ElevationUnderway)
    } else if "Current level: "@.is_prefix_of(t) && parse_unsigned(
        trim(t.skip("Current level: "@.len() as int)),
        u32::MAX as nat,
    ) is Some {
        Some(
            ResponseView::CurrentLevel(
                parse_unsigned(
                    trim(t.skip("Current level: "@.len() as int)),
                    u32::MAX as nat,
                ).unwrap() as u32,
            ),
        )
    } else if "message "@.is_prefix_of(t) {
        spec_parse_message(t.skip("message "@.len() as int))
    } else if "eject: "@.is_prefix_of(t) {
        match parse_unsigned(trim(t.skip("eject: "@.len() as int)), u8::MAX as nat) {
            Some(k) => Some(ResponseView::Eject { direction: k as u8 }),
            None => None,
        }
    } else if parse_unsigned(t, u32::MAX as nat) is Some {
        Some(ResponseView::ConnectNbr(parse_unsigned(t, u32::MAX as nat).unwrap() as u32))
    } else if t.len() > 0 && t[0] == '[' && t.last() == ']' {
        if looks_like_inventory(t) {
            spec_parse_inventory(t)
        } else {
            Some(ResponseView::Look(spec_parse_look(t)))
        }
    } else {
        None
    }
}

fn parse_message_range(v: &Vec<char>, lo: usize, hi: usize) -> (r: Option<ServerResponse>)
    requires
        lo <= hi <= v@.len(),
    ensures
        response_view(r) == spec_parse_message(v@.subrange(lo as int, hi as int)),
{
    let ghost rest = v@.subrange(lo as int, hi as int);
    match find_pair(v, lo, hi, ',', ' ') {
        Some(i) => {
            assert(v@.subrange(lo as int, i as int) =~= rest.take(i - lo));
            assert(v@.subrange(i + 2, hi as int) =~= rest.skip(i - lo + 2));
            match parse_unsigned_range(v, lo, i, 255) {
                Some(k) => {
                    let text = string_of_range(v, i + 2, hi);
                    Some(ServerResponse::Message { direction: k as u8, text })
                },
                None => None,
            }
        },
        None => match parse_unsigned_range(v, lo, hi, 255) {
            Some(k) => {
                let text = String::new();
                Some(ServerResponse::Message { direction: k as u8, text })
            },
            None => None,
        },
    }
}

/// Parses one line sent by the server; `None` for a line of no known form.
pub fn parse_response(line: &str) -> (r: Option<ServerResponse>)
    requires
        response_fits(line@),
    ensures
        response_view(r) == spec_parse_response(line@),
{
    let v = chars_of(line);
    let n = v.len();
    assert(v@.subrange(0, n as int) =~= v@);
    let (a, b) = trim_bounds(&v, 0, n);
    let ghost t = trim(line@);
    assert(t == v@.subrange(a as int, b as int));
    if range_eq_str(&v, a, b, "ok") {
        return Some(ServerResponse::Okay);
    }
    if range_eq_str(&v, a, b, "ko") {
        return Some(ServerResponse::Ko);
    }
    if range_eq_str(&v, a, b, "dead") {
        return Some(ServerResponse::Dead);
    }
    if range_eq_str(&v, a, b, "Elevation underway") {
        return Some(ServerResponse::ElevationUnderway);
    }
    let level_prefix = "Current level: ";
    if range_starts_with(&v, a, b, level_prefix) {
        let p = a + level_prefix.unicode_len();
        assert(v@.subrange(p as int, b as int) =~= t.skip(level_prefix@.len() as int));
        let (ra, rb) = trim_bounds(&v, p, b);
        if let Some(n) = parse_unsigned_range(&v, ra, rb, u32::MAX) {
            return Some(ServerResponse::CurrentLevel(n));
        }
    }
    let message_prefix = "message ";
    if range_starts_with(&v, a, b, message_prefix) {
        let p = a + message_prefix.unicode_len();
        assert(v@.subrange(p as int, b as int) =~= t.skip(message_prefix@.len() as int));
        return parse_message_range(&v, p, b);
    }
    let eject_prefix = "eject: ";
    if range_starts_with(&v, a, b, eject_prefix) {
        let p = a + eject_prefix.unicode_len();
        assert(v@.subrange(p as int, b as int) =~= t.skip(eject_prefix@.len() as int));
        let (ra, rb) = trim_bounds(&v, p, b);
        return match parse_unsigned_range(&v, ra, rb, 255) {
            Some(k) => Some(ServerResponse::Eject { direction: k as u8 }),
            None => None,
        };
    }
    if let Some(n) = parse_unsigned_range(&v, a, b, u32::MAX) {
        return Some(ServerResponse::ConnectNbr(n));
    }
    if b > a && v[a] == '[' && v[b - 1] == ']' {
        if looks_like_inventory_range(&v, a, b) {
            return parse_inventory_range(&v, a, b);
        } else {
            return Some(ServerResponse::Look(parse_look_range(&v, a, b)));
        }
    }
    None
}

// ---------------------------------------------------------------- Actions

/// The command line that the learning agent sends for each of its actions.
pub open spec fn spec_action_command(action: usize) -> Seq<char> {
    if action == 0 {
        "Incantation"@
    } else if action == 1 {
        "Eject"@
    } else if action == 2 {
        "Forward"@
    } else if action == 3 {
        "Left"@
    } else if action == 4 {
        "Right"@
    } else if action == 5 {
        "Take food"@
    } else if action == 6 {
        "Take linemate"@
    } else if action == 7 {
        "Take deraumere"@
    } else if action == 8 {
        "Take sibur"@
    } else if action == 9 {
        "Take mendiane"@
    } else if action == 10 {
        "Take phiras"@
    } else if action == 11 {
        "Take thystame"@
    } else if action == 12 {
        "Set food"@
    } else if action == 13 {
        "Set linemate"@
    } else if action == 14 {
        "Set deraumere"@
    } else if action == 15 {
        "Set sibur"@
    } else if action == 16 {
        "Set mendiane"@
    } else if action == 17 {
        "Set phiras"@
    } else if action == 18 {
        "Set thystame"@
    } else if action == 19 {
        "Broadcast zappy"@
    } else if action == 20 {
        "Take food"@
    } else if action == 21 {
        "Fork"@
    } else {
        "Forward"@
    }
}

/// The name of resource number `r` (food first, thystame last), as the
/// `Take` action for it names it.
pub open spec fn resource_word(r: int) -> Seq<char> {
    spec_action_command((5 + r) as usize).skip(5)
}

/// The seven resource names that the `Take` actions use.
pub proof fn lemma_resource_words()
    ensures
        resource_word(0) == "food"@,
        resource_word(1) == "linemate"@,
        resource_word(2) == "deraumere"@,
        resource_word(3) == "sibur"@,
        resource_word(4) == "mendiane"@,
        resource_word(5) == "phiras"@,
        resource_word(6) == "thystame"@,
{
    reveal_strlit("Take food");
    reveal_strlit("food");
    reveal_strlit("Take linemate");
    reveal_strlit("linemate");
    reveal_strlit("Take deraumere");
    reveal_strlit("deraumere");
    reveal_strlit("Take sibur");
    reveal_strlit("sibur");
    reveal_strlit("Take mendiane");
    reveal_strlit("mendiane");
    reveal_strlit("Take phiras");
    reveal_strlit("phiras");
    reveal_strlit("Take thystame");
    reveal_strlit("thystame");
    assert(resource_word(0) =~= "food"@);
    assert(resource_word(1) =~= "linemate"@);
    assert(resource_word(2) =~= "deraumere"@);
    assert(resource_word(3) =~= "sibur"@);
    assert(resource_word(4) =~= "mendiane"@);
    assert(resource_word(5) =~= "phiras"@);
    assert(resource_word(6) =~= "thystame"@);
}

/// The command for action number `action`; an unknown number moves forward.
pub fn action_to_command(action: usize) -> (command: &'static str)
    ensures
        command@ == spec_action_command(action),
{
    match action {
        0 => "Incantation",
        1 => "Eject",
        2 => "Forward",
        3 => "Left",
        4 => "Right",
        5 => "Take food",
        6 => "Take linemate",
        7 => "Take deraumere",
        8 => "Take sibur",
        9 => "Take mendiane",
        10 => "Take phiras",
        11 => "Take thystame",
        12 => "Set food",
        13 => "Set linemate",
        14 => "Set deraumere",
        15 => "Set sibur",
        16 => "Set mendiane",
        17 => "Set phiras",
        18 => "Set thystame",
        19 => "Broadcast zappy",
        20 => "Take food",
        21 => "Fork",
        _ => "Forward",
    }
}

} // verus!
