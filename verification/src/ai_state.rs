use crate::ai_protocol::TileView;
use vstd::prelude::*;

verus! {

/// Number of tiles of the view that the state vector describes.
pub const MAX_VISION_TILES: usize = 64;

/// Number of resource kinds.
pub const N_RESOURCES: usize = 7;

/// Number of actions of the agent.
pub const N_ACTIONS: usize = 22;

/// Length of the state vector: position, direction, level, food clock,
/// inventory, sound, then seven numbers per tile of view.
pub const STATE_DIM: usize = 2 + 4 + 1 + 1 + 7 + 10 + MAX_VISION_TILES * N_RESOURCES;

/// Food clock of a new player, in ticks.
pub const INITIAL_SURVIVAL_TICKS: u32 = 1260;

/// An exact ratio `numerator / denominator`; the learning code turns each
/// into a floating-point feature.
#[derive(Debug, Clone, Copy, PartialEq, Eq, Structural)]
pub struct Fraction {
    pub numerator: u32,
    pub denominator: u32,
}

pub open spec fn frac(numerator: u32, denominator: u32) -> Fraction {
    Fraction { numerator, denominator }
}

/// What the learning client knows of its player and surroundings.
#[derive(Debug)]
pub struct GameState {
    /// Column of the player, as a share of the map width.
    pub x: Fraction,
    /// Row of the player, as a share of the map height.
    pub y: Fraction,
    pub direction: u8,
    pub level: u32,
    pub survival_ticks: u32,
    pub inventory: [u32; 7],
    pub last_message: Option<u8>,
    pub look_tiles: Vec<TileView>,
    pub map_w: u32,
    pub map_h: u32,
}

pub open spec fn min_u32(a: u32, b: u32) -> u32 {
    if a <= b {
        a
    } else {
        b
    }
}

pub open spec fn tile_resources(t: TileView) -> Seq<u32> {
    seq![t.food, t.linemate, t.deraumere, t.sibur, t.mendiane, t.phiras, t.thystame]
}

/// The seven features of tile `t` of the view: each resource count, capped
/// at ten, in tenths; zeros for a tile out of sight.
pub open spec fn tile_features(look: Seq<TileView>, n_visible: nat, t: int) -> Seq<Fraction> {
    if t < look.len() && t < n_visible {
        Seq::new(7, |r: int| frac(min_u32(tile_resources(look[t])[r], 10), 10))
    } else {
        Seq::new(7, |r: int| frac(0, 1))
    }
}

/// The features of the tiles `t..MAX_VISION_TILES` of the view.
pub open spec fn vision_features(look: Seq<TileView>, n_visible: nat, t: int) -> Seq<Fraction>
    decreases MAX_VISION_TILES - t,
{
    if t >= MAX_VISION_TILES {
        Seq::empty()
    } else {
        tile_features(look, n_visible, t) + vision_features(look, n_visible, t + 1)
    }
}

/// A one-hot vector of `len` entries with a one at `hot` (none if `hot` is
/// out of range).
pub open spec fn one_hot(len: nat, hot: int) -> Seq<Fraction> {
    Seq::new(len, |i: int| if i == hot { frac(1, 1) } else { frac(0, 1) })
}

/// The sound features: whether a message was heard, then from which of the
/// nine directions.
pub open spec fn sound_features(last_message: Option<u8>) -> Seq<Fraction> {
    match last_message {
        None => Seq::new(10, |i: int| frac(0, 1)),
        Some(d) => Seq::new(
            10,
            |i: int|
                if i == 0 || (d < 9 && i == 1 + d) {
                    frac(1, 1)
                } else {
                    frac(0, 1)
                },
        ),
    }
}

/// The state vector of `s`, feature by feature.
pub open spec fn spec_state_vector(s: GameState) -> Seq<Fraction> {
    let n_visible = ((s.level + 1) * (s.level + 1)) as nat;
    seq![s.x, s.y] + one_hot(4, s.direction as int) + seq![
        frac(s.level, 8),
        frac(min_u32(s.survival_ticks, INITIAL_SURVIVAL_TICKS), INITIAL_SURVIVAL_TICKS),
    ] + Seq::new(7, |i: int| frac(min_u32(s.inventory@[i], 20), 20)) + sound_features(
        s.last_message,
    ) + vision_features(s.look_tiles@, n_visible, 0)
}

/// Which actions make sense in state `s`, action by action.
pub open spec fn spec_valid_mask(s: GameState) -> Seq<bool> {
    let seen = s.look_tiles@.len() > 0;
    let here = s.look_tiles@[0];
    let inv = s.inventory@;
    seq![
        true,
        seen && here.players > 1,
        true,
        true,
        true,
        seen && here.food > 0,
        seen && here.linemate > 0,
        seen && here.deraumere > 0,
        seen && here.sibur > 0,
        seen && here.mendiane > 0,
        seen && here.phiras > 0,
        seen && here.thystame > 0,
        inv[0] > 0,
        inv[1] > 0,
        inv[2] > 0,
        inv[3] > 0,
        inv[4] > 0,
        inv[5] > 0,
        inv[6] > 0,
        true,
        inv[0] > 0,
        true,
    ]
}

proof fn lemma_vision_features_len(look: Seq<TileView>, n_visible: nat, t: int)
    requires
        0 <= t <= MAX_VISION_TILES,
    ensures
        vision_features(look, n_visible, t).len() == 7 * (MAX_VISION_TILES - t),
    decreases MAX_VISION_TILES - t,
{
    if t < MAX_VISION_TILES {
        lemma_vision_features_len(look, n_visible, t + 1);
    }
}

impl GameState {
    /// A player at level 1 with a full food clock, at the origin of a
    /// `map_w` by `map_h` map, facing the first direction.
    pub fn new(map_w: u32, map_h: u32) -> (s: Self)
        ensures
            s.x == frac(0, 1),
            s.y == frac(0, 1),
            s.direction == 0,
            s.level == 1,
            s.survival_ticks == INITIAL_SURVIVAL_TICKS,
            s.inventory@ == Seq::new(7, |i: int| 0u32),
            s.last_message is None,
            s.look_tiles@.len() == 0,
            s.map_w == map_w,
            s.map_h == map_h,
    {
        let s = Self {
            x: Fraction { numerator: 0, denominator: 1 },
            y: Fraction { numerator: 0, denominator: 1 },
            direction: 0,
            level: 1,
            survival_ticks: INITIAL_SURVIVAL_TICKS,
            inventory: [0;7],
            last_message: None,
            look_tiles: Vec::new(),
            map_w,
            map_h,
        };
        assert(s.inventory@ =~= Seq::new(7, |i: int| 0u32));
        s
    }

    /// Records the position `(x, y)` and the server's orientation (1 to 4)
    /// as a direction 0 to 3.
    pub fn set_position(&mut self, x: u32, y: u32, orientation: u8)
        ensures
            final(self).x == frac(x, old(self).map_w),
            final(self).y == frac(y, old(self).map_h),
            final(self).direction == if orientation == 0 {
                0
            } else if orientation - 1 > 3 {
                3
            } else {
                orientation - 1
            },
            final(self).level == old(self).level,
            final(self).survival_ticks == old(self).survival_ticks,
            final(self).inventory == old(self).inventory,
            final(self).last_message == old(self).last_message,
            final(self).look_tiles == old(self).look_tiles,
            final(self).map_w == old(self).map_w,
            final(self).map_h == old(self).map_h,
    {
        self.x = Fraction { numerator: x, denominator: self.map_w };
        self.y = Fraction { numerator: y, denominator: self.map_h };
        let d = orientation.saturating_sub(1);
        self.direction = if d > 3 {
            3
        } else {
            d
        };
    }

    /// Whether each action makes sense now.
    #[verifier::rlimit(60)]
    pub fn valid_mask(&self) -> (mask: [bool; N_ACTIONS])
        ensures
            mask@ == spec_valid_mask(*self),
    {
        let seen = self.look_tiles.len() > 0;
        let (players, food, linemate, deraumere, sibur, mendiane, phiras, thystame) = if seen {
            let t = &self.look_tiles[0];
            (t.players, t.food, t.linemate, t.deraumere, t.sibur, t.mendiane, t.phiras, t.thystame)
        } else {
            (0, 0, 0, 0, 0, 0, 0, 0)
        };
        let inv = &self.inventory;
        let mask = [
            true,
            seen && players > 1,
            true,
            true,
            true,
            seen && food > 0,
            seen && linemate > 0,
            seen && deraumere > 0,
            seen && sibur > 0,
            seen && mendiane > 0,
            seen && phiras > 0,
            seen && thystame > 0,
            inv[0] > 0,
            inv[1] > 0,
            inv[2] > 0,
            inv[3] > 0,
            inv[4] > 0,
            inv[5] > 0,
            inv[6] > 0,
            true,
            inv[0] > 0,
            true,
        ];
        assert(mask@ =~= spec_valid_mask(*self));
        mask
    }

    /// The state vector of the current state (see `spec_state_vector`); the
    /// message heard is consumed.
    pub fn to_state_vector(&mut self) -> (v: Vec<Fraction>)
        requires
            old(self).direction < 4,
            (old(self).level + 1) * (old(self).level + 1) <= u32::MAX,
        ensures
            v@ == spec_state_vector(*old(self)),
            v@.len() == STATE_DIM,
            final(self).last_message is None,
            final(self).x == old(self).x,
            final(self).y == old(self).y,
            final(self).direction == old(self).direction,
            final(self).level == old(self).level,
            final(self).survival_ticks == old(self).survival_ticks,
            final(self).inventory == old(self).inventory,
            final(self).look_tiles == old(self).look_tiles,
            final(self).map_w == old(self).map_w,
            final(self).map_h == old(self).map_h,
    {
        let ghost s0 = *self;
        let mut v: Vec<Fraction> = Vec::with_capacity(STATE_DIM);
        v.push(self.x);
        v.push(self.y);
        let mut d: u8 = 0;
        while d < 4
            invariant
                d <= 4,
                v@ == seq![s0.x, s0.y] + one_hot(4, s0.direction as int).take(d as int),
                *self == s0,
            decreases 4 - d,
        {
            let f = if d == self.direction {
                Fraction { numerator: 1, denominator: 1 }
            } else {
                Fraction { numerator: 0, denominator: 1 }
            };
            v.push(f);
            assert(one_hot(4, s0.direction as int).take(d + 1) =~= one_hot(4, s0.direction as int).take(d as int).push(f));
            d = d + 1;
        }
        assert(one_hot(4, s0.direction as int).take(4) =~= one_hot(4, s0.direction as int));
        v.push(Fraction { numerator: self.level, denominator: 8 });
        let ticks = if self.survival_ticks < INITIAL_SURVIVAL_TICKS {
            self.survival_ticks
        } else {
            INITIAL_SURVIVAL_TICKS
        };
        v.push(Fraction { numerator: ticks, denominator: INITIAL_SURVIVAL_TICKS });
        let ghost head = v@;
        let ghost inv_part = Seq::new(7, |i: int| frac(min_u32(s0.inventory@[i], 20), 20));
        let mut i: usize = 0;
        while i < 7
            invariant
                i <= 7,
                v@ == head + inv_part.take(i as int),
                *self == s0,
                inv_part == Seq::new(7, |i: int| frac(min_u32(s0.inventory@[i], 20), 20)),
            decreases 7 - i,
        {
            let q = self.inventory[i];
            let f = Fraction {
                numerator: if q < 20 {
                    q
                } else {
                    20
                },
                denominator: 20,
            };
            v.push(f);
            assert(inv_part.take(i + 1) =~= inv_part.take(i as int).push(f));
            i = i + 1;
        }
        assert(inv_part.take(7) =~= inv_part);
        let message = self.last_message.take();
        assert(*self == (GameState { last_message: None, ..s0 }));
        let ghost head2 = v@;
        let ghost sound = sound_features(s0.last_message);
        let mut k: usize = 0;
        while k < 10
            invariant
                k <= 10,
                v@ == head2 + sound.take(k as int),
                sound == sound_features(s0.last_message),
                message == s0.last_message,
                *self == (GameState { last_message: None, ..s0 }),
            decreases 10 - k,
        {
            let hot = match message {
                None => false,
                Some(dir) => k == 0 || ((dir as usize) < 9 && k == 1 + dir as usize),
            };
            let f = if hot {
                Fraction { numerator: 1, denominator: 1 }
            } else {
                Fraction { numerator: 0, denominator: 1 }
            };
            v.push(f);
            assert(sound.take(k + 1) =~= sound.take(k as int).push(f));
            k = k + 1;
        }
        assert(sound.take(10) =~= sound);
        assert(s0.level + 1 <= u32::MAX) by (nonlinear_arith)
            requires
                (s0.level + 1) * (s0.level + 1) <= u32::MAX,
                s0.level >= 0,
        ;
        let n_visible = ((self.level + 1) * (self.level + 1)) as usize;
        let ghost look = s0.look_tiles@;
        let ghost head3 = v@;
        let mut tile_i: usize = 0;
        while tile_i < MAX_VISION_TILES
            invariant
                tile_i <= MAX_VISION_TILES,
                head3 + vision_features(look, n_visible as nat, 0) == v@ + vision_features(
                    look,
                    n_visible as nat,
                    tile_i as int,
                ),
                self.look_tiles@ == look,
                *self == (GameState { last_message: None, ..s0 }),
                n_visible == (s0.level + 1) * (s0.level + 1),
            decreases MAX_VISION_TILES - tile_i,
        {
            let ghost part = tile_features(look, n_visible as nat, tile_i as int);
            let ghost before = v@;
            if tile_i < self.look_tiles.len() && tile_i < n_visible {
                let res = self.look_tiles[tile_i].resources();
                let mut r: usize = 0;
                while r < 7
                    invariant
                        r <= 7,
                        res@ == tile_resources(look[tile_i as int]),
                        tile_i < look.len(),
                        tile_i < n_visible,
                        part == tile_features(look, n_visible as nat, tile_i as int),
                        v@ == before + part.take(r as int),
                    decreases 7 - r,
                {
                    let q = res[r];
                    let f = Fraction {
                        numerator: if q < 10 {
                            q
                        } else {
                            10
                        },
                        denominator: 10,
                    };
                    v.push(f);
                    assert(part.take(r + 1) =~= part.take(r as int).push(f));
                    r = r + 1;
                }
            } else {
                let mut r: usize = 0;
                while r < 7
                    invariant
                        r <= 7,
                        !(tile_i < look.len() && tile_i < n_visible),
                        part == tile_features(look, n_visible as nat, tile_i as int),
                        v@ == before + part.take(r as int),
                    decreases 7 - r,
                {
                    let f = Fraction { numerator: 0, denominator: 1 };
                    v.push(f);
                    assert(part.take(r + 1) =~= part.take(r as int).push(f));
                    r = r + 1;
                }
            }
            assert(part.take(7) =~= part);
            assert(vision_features(look, n_visible as nat, tile_i as int) == part + vision_features(
                look,
                n_visible as nat,
                tile_i + 1,
            ));
            assert(before + vision_features(look, n_visible as nat, tile_i as int) =~= v@
                + vision_features(look, n_visible as nat, tile_i + 1));
            tile_i = tile_i + 1;
        }
        assert(vision_features(look, n_visible as nat, 64) =~= Seq::<Fraction>::empty());
        assert(v@ =~= spec_state_vector(s0));
        proof {
            lemma_vision_features_len(look, n_visible as nat, 0);
        }
        v
    }
}

} // verus!
