use crate::constants::{
    DENSITY_SCALE, MINIMUM_RESOURCE_QUANTITY, RESOURCE_DENSITY_DERAUMERE, RESOURCE_DENSITY_FOOD,
    RESOURCE_DENSITY_LINEMATE, RESOURCE_DENSITY_MENDIANE, RESOURCE_DENSITY_PHIRAS,
    RESOURCE_DENSITY_SIBUR, RESOURCE_DENSITY_THYSTAME,
};
use crate::map::{lemma_with_added, GameMap, Resource, Tile};
use crate::rng::shuffle_items;
use crate::text::{decimal_chars, push_decimal_text};
use vstd::prelude::*;
use vstd::seq_lib::group_to_multiset_ensures;

verus! {

/// How much of one resource a new map holds: `density` thousandths per tile.
#[derive(Debug, Clone, Copy)]
pub struct ResourceRule {
    pub resource: Resource,
    pub density: u32,
}

/// Position of a resource in the order food, linemate, deraumere, sibur,
/// mendiane, phiras, thystame.
pub open spec fn resource_index(r: Resource) -> int {
    match r {
        Resource::Food => 0,
        Resource::Linemate => 1,
        Resource::Deraumere => 2,
        Resource::Sibur => 3,
        Resource::Mendiane => 4,
        Resource::Phiras => 5,
        Resource::Thystame => 6,
    }
}

/// The density of each resource, in thousandths per tile.
pub open spec fn density_of(r: Resource) -> u32 {
    match r {
        Resource::Food => RESOURCE_DENSITY_FOOD,
        Resource::Linemate => RESOURCE_DENSITY_LINEMATE,
        Resource::Deraumere => RESOURCE_DENSITY_DERAUMERE,
        Resource::Sibur => RESOURCE_DENSITY_SIBUR,
        Resource::Mendiane => RESOURCE_DENSITY_MENDIANE,
        Resource::Phiras => RESOURCE_DENSITY_PHIRAS,
        Resource::Thystame => RESOURCE_DENSITY_THYSTAME,
    }
}

/// One rule per resource, in the order of `resource_index`.
pub fn resource_rules() -> (rules: Vec<ResourceRule>)
    ensures
        rules@.len() == 7,
        forall|k: int|
            0 <= k < 7 ==> resource_index((#[trigger] rules@[k]).resource) == k && rules@[k].density
                == density_of(rules@[k].resource),
{
    let rules = vec![
        ResourceRule { resource: Resource::Food, density: RESOURCE_DENSITY_FOOD },
        ResourceRule { resource: Resource::Linemate, density: RESOURCE_DENSITY_LINEMATE },
        ResourceRule { resource: Resource::Deraumere, density: RESOURCE_DENSITY_DERAUMERE },
        ResourceRule { resource: Resource::Sibur, density: RESOURCE_DENSITY_SIBUR },
        ResourceRule { resource: Resource::Mendiane, density: RESOURCE_DENSITY_MENDIANE },
        ResourceRule { resource: Resource::Phiras, density: RESOURCE_DENSITY_PHIRAS },
        ResourceRule { resource: Resource::Thystame, density: RESOURCE_DENSITY_THYSTAME },
    ];
    rules
}

pub open spec fn min_nat(a: nat, b: nat) -> nat {
    if a <= b {
        a
    } else {
        b
    }
}

/// `tile_count * density / 1000` rounded half up, capped at `usize::MAX`,
/// and at least `MINIMUM_RESOURCE_QUANTITY`.
pub open spec fn spec_resource_quantity(tile_count: nat, density: nat) -> nat {
    let rounded = (tile_count * density + (DENSITY_SCALE / 2) as nat) / (DENSITY_SCALE as nat);
    let capped = min_nat(rounded, usize::MAX as nat);
    if capped >= MINIMUM_RESOURCE_QUANTITY {
        capped
    } else {
        MINIMUM_RESOURCE_QUANTITY as nat
    }
}

/// Number of units of a resource to spread over `tile_count` tiles at
/// `density` thousandths per tile.
pub fn calculate_resource_quantity(tile_count: usize, density: u32) -> (quantity: usize)
    ensures
        quantity == spec_resource_quantity(tile_count as nat, density as nat),
{
    assert((tile_count as u128) * (density as u128) <= 0xffff_ffff_ffff_ffff_u128
        * 0xffff_ffff_u128) by (nonlinear_arith)
        requires
            tile_count <= 0xffff_ffff_ffff_ffff_u128,
            density <= 0xffff_ffff_u128,
    ;
    let product = (tile_count as u128) * (density as u128);
    let rounded = (product + (DENSITY_SCALE / 2) as u128) / (DENSITY_SCALE as u128);
    let capped = if rounded > usize::MAX as u128 {
        usize::MAX
    } else {
        rounded as usize
    };
    if capped >= MINIMUM_RESOURCE_QUANTITY {
        capped
    } else {
        MINIMUM_RESOURCE_QUANTITY
    }
}

/// Total count of `r` over `tiles`.
pub open spec fn total_resource(tiles: Seq<Tile>, r: Resource) -> nat
    decreases tiles.len(),
{
    if tiles.len() == 0 {
        0
    } else {
        total_resource(tiles.drop_last(), r) + tiles.last().count(r) as nat
    }
}

pub proof fn lemma_total_update(tiles: Seq<Tile>, i: int, t: Tile, r: Resource)
    requires
        0 <= i < tiles.len(),
    ensures
        total_resource(tiles.update(i, t), r) == total_resource(tiles, r) - tiles[i].count(r)
            + t.count(r),
    decreases tiles.len(),
{
    if i == tiles.len() - 1 {
        assert(tiles.update(i, t).drop_last() =~= tiles.drop_last());
    } else {
        assert(tiles.update(i, t).drop_last() =~= tiles.drop_last().update(i, t));
        lemma_total_update(tiles.drop_last(), i, t, r);
    }
}

pub proof fn lemma_total_prefix(tiles: Seq<Tile>, k: int, r: Resource)
    requires
        0 <= k <= tiles.len(),
    ensures
        total_resource(tiles.take(k), r) <= total_resource(tiles, r),
    decreases tiles.len(),
{
    if k < tiles.len() {
        assert(tiles.drop_last().take(k) =~= tiles.take(k));
        lemma_total_prefix(tiles.drop_last(), k, r);
    } else {
        assert(tiles.take(k) =~= tiles);
    }
}

/// `after` is `before` with one more `r` on each tile that `picked` names,
/// `picked` naming distinct tiles.
pub open spec fn spread_over(before: Seq<Tile>, after: Seq<Tile>, r: Resource, picked: Seq<usize>) -> bool {
    &&& after.len() == before.len()
    &&& picked.no_duplicates()
    &&& forall|j: int| 0 <= j < picked.len() ==> #[trigger] picked[j] < before.len()
    &&& forall|i: int|
        0 <= i < before.len() ==> #[trigger] after[i] == if picked.contains(i as usize) {
            before[i].with_added(r)
        } else {
            before[i]
        }
}

/// The tile positions `0..n`, in order.
pub fn all_tile_indexes(n: usize) -> (indexes: Vec<usize>)
    ensures
        indexes@ == Seq::new(n as nat, |j: int| j as usize),
{
    let mut indexes: Vec<usize> = Vec::new();
    let mut i: usize = 0;
    while i < n
        invariant
            i <= n,
            indexes@ == Seq::new(i as nat, |j: int| j as usize),
        decreases n - i,
    {
        indexes.push(i);
        assert(indexes@ =~= Seq::new((i + 1) as nat, |j: int| j as usize));
        i = i + 1;
    }
    indexes
}

/// Puts one `r` on each of the tiles `order[..m]`, which are distinct; the
/// other tiles are left as they were.
pub fn place_on_first(game_map: &mut GameMap, order: &Vec<usize>, m: usize, r: Resource)
    requires
        m <= order@.len(),
        order@.take(m as int).no_duplicates(),
        forall|j: int| 0 <= j < m ==> #[trigger] order@[j] < old(game_map).spec_tiles().len(),
        forall|j: int|
            0 <= j < m ==> old(game_map).spec_tiles()[(#[trigger] order@[j]) as int].count(r)
                < usize::MAX,
    ensures
        final(game_map).spec_width() == old(game_map).spec_width(),
        final(game_map).spec_height() == old(game_map).spec_height(),
        spread_over(old(game_map).spec_tiles(), final(game_map).spec_tiles(), r, order@.take(m as int)),
        total_resource(final(game_map).spec_tiles(), r) == total_resource(old(game_map).spec_tiles(), r)
            + m,
        forall|other: Resource|
            other != r ==> #[trigger] total_resource(final(game_map).spec_tiles(), other)
                == total_resource(old(game_map).spec_tiles(), other),
{
    let ghost before = game_map.spec_tiles();
    let n = game_map.tile_count();
    let mut k: usize = 0;
    while k < m
        invariant
            m <= order@.len(),
            n == before.len(),
            k <= m,
            order@.take(m as int).no_duplicates(),
            forall|j: int| 0 <= j < m ==> #[trigger] order@[j] < n,
            forall|j: int| 0 <= j < m ==> before[(#[trigger] order@[j]) as int].count(r) < usize::MAX,
            game_map.spec_width() == old(game_map).spec_width(),
            game_map.spec_height() == old(game_map).spec_height(),
            before == old(game_map).spec_tiles(),
            game_map.spec_tiles().len() == n,
            forall|i: int|
                0 <= i < n ==> #[trigger] game_map.spec_tiles()[i] == if order@.take(
                    k as int,
                ).contains(i as usize) {
                    before[i].with_added(r)
                } else {
                    before[i]
                },
            total_resource(game_map.spec_tiles(), r) == total_resource(before, r) + k,
            forall|other: Resource|
                other != r ==> #[trigger] total_resource(game_map.spec_tiles(), other)
                    == total_resource(before, other),
        decreases m - k,
    {
        let t = order[k];
        let ghost cur = game_map.spec_tiles();
        assert(!order@.take(k as int).contains(t)) by {
            if order@.take(k as int).contains(t) {
                let j = choose|j: int| 0 <= j < k && order@.take(k as int)[j] == t;
                assert(order@.take(m as int)[j] == order@.take(m as int)[k as int]);
            }
        }
        assert(cur[t as int] == before[t as int]);
        if let Some(tile) = game_map.get_tile_by_index_mut(t) {
            tile.add_resource(r);
        }
        proof {
            let new_tile = before[t as int].with_added(r);
            assert(game_map.spec_tiles() == cur.update(t as int, new_tile));
            lemma_total_update(cur, t as int, new_tile, r);
            assert forall|other: Resource|
                other != r implies #[trigger] total_resource(game_map.spec_tiles(), other)
                == total_resource(before, other) by {
                lemma_total_update(cur, t as int, new_tile, other);
                lemma_with_added(before[t as int], r, other);
            }
            assert forall|i: int| 0 <= i < n implies #[trigger] game_map.spec_tiles()[i] == if order@.take(
                k + 1,
            ).contains(i as usize) {
                before[i].with_added(r)
            } else {
                before[i]
            } by {
                let prefix = order@.take(k as int);
                assert(order@.take(k + 1) =~= prefix.push(t));
                if i == t {
                    assert(prefix.push(t)[k as int] == t);
                    assert(order@.take(k + 1).contains(i as usize));
                } else {
                    assert((i as usize) != t);
                    if prefix.contains(i as usize) {
                        let j = choose|j: int| 0 <= j < prefix.len() && prefix[j] == i as usize;
                        assert(prefix.push(t)[j] == i as usize);
                    }
                    if prefix.push(t).contains(i as usize) {
                        let j = choose|j: int| 0 <= j < prefix.len() + 1 && prefix.push(t)[j] == i as usize;
                        assert(j < prefix.len());
                        assert(prefix[j] == i as usize);
                    }
                    assert(game_map.spec_tiles()[i] == cur[i]);
                }
            }
        }
        k = k + 1;
    }
    proof {
        let picked = order@.take(m as int);
        assert(picked.no_duplicates());
        assert forall|j: int| 0 <= j < picked.len() implies #[trigger] picked[j] < before.len() by {
            assert(picked[j] == order@[j]);
        }
        assert(spread_over(before, game_map.spec_tiles(), r, picked));
    }
}

/// Puts one `resource` on each of `min(quantity, tile count)` distinct tiles
/// drawn at random: the tile positions are shuffled, and the first of them
/// get the resource.
pub fn distribute_resource(game_map: &mut GameMap, resource: Resource, quantity: usize)
    requires
        forall|i: int|
            0 <= i < old(game_map).spec_tiles().len() ==> (#[trigger] old(
                game_map,
            ).spec_tiles()[i]).count(resource) < usize::MAX,
    ensures
        final(game_map).spec_width() == old(game_map).spec_width(),
        final(game_map).spec_height() == old(game_map).spec_height(),
        exists|picked: Seq<usize>|
            picked.len() == min_nat(quantity as nat, old(game_map).spec_tiles().len())
                && #[trigger] spread_over(
                old(game_map).spec_tiles(),
                final(game_map).spec_tiles(),
                resource,
                picked,
            ),
        total_resource(final(game_map).spec_tiles(), resource) == total_resource(
            old(game_map).spec_tiles(),
            resource,
        ) + min_nat(quantity as nat, old(game_map).spec_tiles().len()),
        forall|other: Resource|
            other != resource ==> #[trigger] total_resource(final(game_map).spec_tiles(), other)
                == total_resource(old(game_map).spec_tiles(), other),
{
    let n = game_map.tile_count();
    let mut tile_indexes = all_tile_indexes(n);
    let ghost ordered = tile_indexes@;
    shuffle_items(&mut tile_indexes);
    proof {
        broadcast use group_to_multiset_ensures;

        assert(ordered.no_duplicates());
        ordered.lemma_multiset_has_no_duplicates();
        tile_indexes@.lemma_multiset_has_no_duplicates_conv();
        assert forall|j: int| 0 <= j < tile_indexes@.len() implies #[trigger] tile_indexes@[j] < n by {
            assert(tile_indexes@.contains(tile_indexes@[j]));
            assert(tile_indexes@.to_multiset().count(tile_indexes@[j]) > 0);
            assert(ordered.contains(tile_indexes@[j]));
        }
        assert(tile_indexes@.to_multiset().len() == ordered.to_multiset().len());
        assert(tile_indexes@.len() == ordered.len());
    }
    let m = if quantity < n {
        quantity
    } else {
        n
    };
    proof {
        let picked = tile_indexes@.take(m as int);
        assert forall|a: int, b: int| 0 <= a < b < picked.len() implies picked[a] != picked[b] by {
            assert(picked[a] == tile_indexes@[a] && picked[b] == tile_indexes@[b]);
        }
    }
    place_on_first(game_map, &tile_indexes, m, resource);
}

/// Total count of `resource` over the map.
pub fn count_map_resource(game_map: &GameMap, resource: Resource) -> (total: usize)
    requires
        total_resource(game_map.spec_tiles(), resource) <= usize::MAX,
    ensures
        total == total_resource(game_map.spec_tiles(), resource),
{
    let ghost tiles = game_map.spec_tiles();
    let mut total: usize = 0;
    let n = game_map.tile_count();
    let mut tile_index: usize = 0;
    assert(tiles.take(0) =~= Seq::<Tile>::empty());
    while tile_index < n
        invariant
            n == tiles.len(),
            tiles == game_map.spec_tiles(),
            tile_index <= n,
            total == total_resource(tiles.take(tile_index as int), resource),
            total_resource(tiles, resource) <= usize::MAX,
        decreases n - tile_index,
    {
        if let Some(tile) = game_map.get_tile_by_index(tile_index) {
            proof {
                assert(tiles.take(tile_index + 1).drop_last() =~= tiles.take(tile_index as int));
                lemma_total_prefix(tiles, tile_index + 1, resource);
            }
            total = total + tile.resource_count(resource);
        }
        tile_index = tile_index + 1;
    }
    assert(tiles.take(n as int) =~= tiles);
    total
}

/// The line that reports the total of each resource over `tiles`.
pub open spec fn spec_resource_totals_line(tiles: Seq<Tile>) -> Seq<char> {
    "Resources: food="@ + decimal_chars(total_resource(tiles, Resource::Food))
        + ", linemate="@ + decimal_chars(total_resource(tiles, Resource::Linemate))
        + ", deraumere="@ + decimal_chars(total_resource(tiles, Resource::Deraumere))
        + ", sibur="@ + decimal_chars(total_resource(tiles, Resource::Sibur))
        + ", mendiane="@ + decimal_chars(total_resource(tiles, Resource::Mendiane))
        + ", phiras="@ + decimal_chars(total_resource(tiles, Resource::Phiras))
        + ", thystame="@ + decimal_chars(total_resource(tiles, Resource::Thystame))
}

/// The totals of the resources over the map, as one line of text.
pub fn resource_totals_line(game_map: &GameMap) -> (line: String)
    requires
        forall|r: Resource| #[trigger] total_resource(game_map.spec_tiles(), r) <= usize::MAX,
    ensures
        line@ == spec_resource_totals_line(game_map.spec_tiles()),
{
    let mut line = String::new();
    line.append("Resources: food=");
    push_decimal_text(&mut line, count_map_resource(game_map, Resource::Food));
    line.append(", linemate=");
    push_decimal_text(&mut line, count_map_resource(game_map, Resource::Linemate));
    line.append(", deraumere=");
    push_decimal_text(&mut line, count_map_resource(game_map, Resource::Deraumere));
    line.append(", sibur=");
    push_decimal_text(&mut line, count_map_resource(game_map, Resource::Sibur));
    line.append(", mendiane=");
    push_decimal_text(&mut line, count_map_resource(game_map, Resource::Mendiane));
    line.append(", phiras=");
    push_decimal_text(&mut line, count_map_resource(game_map, Resource::Phiras));
    line.append(", thystame=");
    push_decimal_text(&mut line, count_map_resource(game_map, Resource::Thystame));
    line
}

/// Every tile of `tiles` is empty of every resource.
pub open spec fn all_empty(tiles: Seq<Tile>) -> bool {
    forall|i: int| 0 <= i < tiles.len() ==> #[trigger] tiles[i] == crate::map::empty_tile()
}

pub proof fn lemma_total_empty(tiles: Seq<Tile>, r: Resource)
    requires
        all_empty(tiles),
    ensures
        total_resource(tiles, r) == 0,
    decreases tiles.len(),
{
    if tiles.len() > 0 {
        assert(all_empty(tiles.drop_last()));
        lemma_total_empty(tiles.drop_last(), r);
    }
}

/// Spreads each resource over the map at its density: `min(quantity, tile
/// count)` units of it, at most one more of it on any tile.
pub fn spawn_initial_resources(game_map: &mut GameMap)
    requires
        forall|i: int, r: Resource|
            0 <= i < old(game_map).spec_tiles().len() ==> #[trigger] old(
                game_map,
            ).spec_tiles()[i].count(r) < usize::MAX,
    ensures
        final(game_map).spec_width() == old(game_map).spec_width(),
        final(game_map).spec_height() == old(game_map).spec_height(),
        final(game_map).spec_tiles().len() == old(game_map).spec_tiles().len(),
        forall|r: Resource|
            #[trigger] total_resource(final(game_map).spec_tiles(), r) == total_resource(
                old(game_map).spec_tiles(),
                r,
            ) + min_nat(
                spec_resource_quantity(old(game_map).spec_tiles().len(), density_of(r) as nat),
                old(game_map).spec_tiles().len(),
            ),
        forall|i: int, r: Resource|
            0 <= i < old(game_map).spec_tiles().len() ==> {
                let before = #[trigger] old(game_map).spec_tiles()[i].count(r);
                let after = final(game_map).spec_tiles()[i].count(r);
                after == before || after == before + 1
            },
{
    let ghost start = game_map.spec_tiles();
    let n = game_map.tile_count();
    let rules = resource_rules();
    let mut k: usize = 0;
    while k < rules.len()
        invariant
            rules@.len() == 7,
            forall|j: int|
                0 <= j < 7 ==> resource_index((#[trigger] rules@[j]).resource) == j
                    && rules@[j].density == density_of(rules@[j].resource),
            k <= 7,
            n == start.len(),
            start == old(game_map).spec_tiles(),
            game_map.spec_width() == old(game_map).spec_width(),
            game_map.spec_height() == old(game_map).spec_height(),
            game_map.spec_tiles().len() == n,
            forall|i: int, r: Resource|
                0 <= i < n ==> #[trigger] start[i].count(r) < usize::MAX,
            forall|r: Resource|
                #[trigger] total_resource(game_map.spec_tiles(), r) == total_resource(start, r)
                    + if resource_index(r) < k {
                    min_nat(spec_resource_quantity(n as nat, density_of(r) as nat), n as nat)
                } else {
                    0
                },
            forall|i: int, r: Resource|
                0 <= i < n ==> {
                    let before = #[trigger] start[i].count(r);
                    let now = game_map.spec_tiles()[i].count(r);
                    &&& resource_index(r) >= k ==> now == before
                    &&& now == before || now == before + 1
                },
        decreases 7 - k,
    {
        let rule = rules[k];
        let ghost cur = game_map.spec_tiles();
        let quantity = calculate_resource_quantity(game_map.tile_count(), rule.density);
        proof {
            assert(resource_index(rule.resource) == k);
            assert forall|i: int| 0 <= i < cur.len() implies (#[trigger] cur[i]).count(rule.resource) < usize::MAX by {
                assert(start[i].count(rule.resource) < usize::MAX);
            }
        }
        distribute_resource(game_map, rule.resource, quantity);
        proof {
            let picked = choose|picked: Seq<usize>|
                picked.len() == min_nat(quantity as nat, cur.len()) && #[trigger] spread_over(
                    cur,
                    game_map.spec_tiles(),
                    rule.resource,
                    picked,
                );
            assert forall|i: int, r: Resource| 0 <= i < n implies {
                let before = #[trigger] start[i].count(r);
                let now = game_map.spec_tiles()[i].count(r);
                &&& resource_index(r) >= k + 1 ==> now == before
                &&& now == before || now == before + 1
            } by {
                assert(start[i].count(rule.resource) < usize::MAX);
                let c = cur[i].count(r);
                assert(c == start[i].count(r) || c == start[i].count(r) + 1);
                if picked.contains(i as usize) {
                    lemma_with_added(cur[i], rule.resource, r);
                    assert(cur[i].count(rule.resource) == start[i].count(rule.resource));
                }
            }
            assert forall|r: Resource|
                #[trigger] total_resource(game_map.spec_tiles(), r) == total_resource(start, r)
                    + if resource_index(r) < k + 1 {
                    min_nat(spec_resource_quantity(n as nat, density_of(r) as nat), n as nat)
                } else {
                    0
                } by {
                if r == rule.resource {
                } else {
                    assert(total_resource(game_map.spec_tiles(), r) == total_resource(cur, r));
                    assert(resource_index(r) != k);
                }
            }
        }
        k = k + 1;
    }
}

} // verus!
