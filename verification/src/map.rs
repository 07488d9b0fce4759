use vstd::prelude::*;

verus! {

/// The seven kinds of items that lie on the tiles.
#[derive(Debug, Clone, Copy, PartialEq, Eq, Structural)]
pub enum Resource {
    Food,
    Linemate,
    Deraumere,
    Sibur,
    Mendiane,
    Phiras,
    Thystame,
}

/// What lies on one tile.
#[derive(Debug, Clone, Copy)]
pub struct Tile {
    pub food: usize,
    pub linemate: usize,
    pub deraumere: usize,
    pub sibur: usize,
    pub mendiane: usize,
    pub phiras: usize,
    pub thystame: usize,
}

pub open spec fn empty_tile() -> Tile {
    Tile { food: 0, linemate: 0, deraumere: 0, sibur: 0, mendiane: 0, phiras: 0, thystame: 0 }
}

impl Tile {
    pub open spec fn count(self, resource: Resource) -> usize {
        match resource {
            Resource::Food => self.food,
            Resource::Linemate => self.linemate,
            Resource::Deraumere => self.deraumere,
            Resource::Sibur => self.sibur,
            Resource::Mendiane => self.mendiane,
            Resource::Phiras => self.phiras,
            Resource::Thystame => self.thystame,
        }
    }

    /// The tile with one more `resource`.
    pub open spec fn with_added(self, resource: Resource) -> Tile {
        match resource {
            Resource::Food => Tile { food: (self.food + 1) as usize, ..self },
            Resource::Linemate => Tile { linemate: (self.linemate + 1) as usize, ..self },
            Resource::Deraumere => Tile { deraumere: (self.deraumere + 1) as usize, ..self },
            Resource::Sibur => Tile { sibur: (self.sibur + 1) as usize, ..self },
            Resource::Mendiane => Tile { mendiane: (self.mendiane + 1) as usize, ..self },
            Resource::Phiras => Tile { phiras: (self.phiras + 1) as usize, ..self },
            Resource::Thystame => Tile { thystame: (self.thystame + 1) as usize, ..self },
        }
    }

    pub fn new() -> (tile: Tile)
        ensures
            tile == empty_tile(),
    {
        Tile { food: 0, linemate: 0, deraumere: 0, sibur: 0, mendiane: 0, phiras: 0, thystame: 0 }
    }

    pub fn resource_count(&self, resource: Resource) -> (n: usize)
        ensures
            n == self.count(resource),
    {
        match resource {
            Resource::Food => self.food,
            Resource::Linemate => self.linemate,
            Resource::Deraumere => self.deraumere,
            Resource::Sibur => self.sibur,
            Resource::Mendiane => self.mendiane,
            Resource::Phiras => self.phiras,
            Resource::Thystame => self.thystame,
        }
    }

    pub fn add_resource(&mut self, resource: Resource)
        requires
            old(self).count(resource) < usize::MAX,
        ensures
            *final(self) == old(self).with_added(resource),
    {
        match resource {
            Resource::Food => self.food = self.food + 1,
            Resource::Linemate => self.linemate = self.linemate + 1,
            Resource::Deraumere => self.deraumere = self.deraumere + 1,
            Resource::Sibur => self.sibur = self.sibur + 1,
            Resource::Mendiane => self.mendiane = self.mendiane + 1,
            Resource::Phiras => self.phiras = self.phiras + 1,
            Resource::Thystame => self.thystame = self.thystame + 1,
        }
    }
}

/// Adding one resource changes the count of that resource only, by one.
pub proof fn lemma_with_added(tile: Tile, added: Resource, other: Resource)
    requires
        tile.count(added) < usize::MAX,
    ensures
        tile.with_added(added).count(other) == if other == added {
            tile.count(other) + 1
        } else {
            tile.count(other) as int
        },
{
}

/// The board: `width * height` tiles, row by row.
#[derive(Debug)]
pub struct GameMap {
    width: usize,
    height: usize,
    tiles: Vec<Tile>,
}

impl GameMap {
    pub closed spec fn spec_width(&self) -> usize {
        self.width
    }

    pub closed spec fn spec_height(&self) -> usize {
        self.height
    }

    /// The tiles, row by row.
    pub closed spec fn spec_tiles(&self) -> Seq<Tile> {
        self.tiles@
    }

    /// There is one tile per cell.
    pub open spec fn wf(&self) -> bool {
        self.spec_tiles().len() == self.spec_width() * self.spec_height()
    }

    /// An empty map of `width` columns and `height` rows.
    pub fn new(width: usize, height: usize) -> (map: GameMap)
        requires
            width * height <= usize::MAX,
        ensures
            map.wf(),
            map.spec_width() == width,
            map.spec_height() == height,
            forall|i: int| 0 <= i < map.spec_tiles().len() ==> #[trigger] map.spec_tiles()[i] == empty_tile(),
    {
        let n = width * height;
        let mut tiles: Vec<Tile> = Vec::new();
        let mut i: usize = 0;
        while i < n
            invariant
                i <= n,
                tiles@.len() == i,
                forall|j: int| 0 <= j < i ==> #[trigger] tiles@[j] == empty_tile(),
            decreases n - i,
        {
            tiles.push(Tile::new());
            i = i + 1;
        }
        GameMap { width, height, tiles }
    }

    pub fn width(&self) -> (w: usize)
        ensures
            w == self.spec_width(),
    {
        self.width
    }

    pub fn height(&self) -> (h: usize)
        ensures
            h == self.spec_height(),
    {
        self.height
    }

    /// Number of tiles.
    pub fn tile_count(&self) -> (n: usize)
        ensures
            n == self.spec_tiles().len(),
    {
        self.tiles.len()
    }

    pub fn get_tile_by_index(&self, index: usize) -> (tile: Option<&Tile>)
        ensures
            index < self.spec_tiles().len() ==> tile == Some(&self.spec_tiles()[index as int]),
            index >= self.spec_tiles().len() ==> tile is None,
    {
        if index < self.tiles.len() {
            Some(&self.tiles[index])
        } else {
            None
        }
    }

    /// The tile at `index`, to change it in place.
    pub fn get_tile_by_index_mut(&mut self, index: usize) -> (tile: Option<&mut Tile>)
        ensures
            index < old(self).spec_tiles().len() ==> (tile matches Some(t) && *t == old(
                self,
            ).spec_tiles()[index as int] && final(self).spec_tiles() == old(
                self,
            ).spec_tiles().update(index as int, *final(t)) && final(self).spec_width() == old(
                self,
            ).spec_width() && final(self).spec_height() == old(self).spec_height()),
            index >= old(self).spec_tiles().len() ==> tile is None && *final(self) == *old(self),
    {
        if index < self.tiles.len() {
            Some(&mut self.tiles[index])
        } else {
            None
        }
    }
}

} // verus!
