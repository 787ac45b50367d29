use vstd::prelude::*;
use crate::constants::{MAX_DEFENSE, MAX_MAX_HP, MAX_POWER};

verus! {

/// The named colours the game paints entities and messages with.
#[derive(Clone, Copy, Debug, PartialEq, Eq, Structural)]
pub enum Color {
    White,
    Red,
    Orange,
    Yellow,
    Green,
    Violet,
    LightViolet,
    LightBlue,
    LightGreen,
    LightCyan,
    LightYellow,
    DesaturatedGreen,
    DarkerGreen,
    DarkRed,
    Sky,
}

/// What happens when a fighter's hit points run out.
#[derive(Clone, Copy, Debug, PartialEq, Eq, Structural)]
pub enum DeathCallback {
    Player,
    Monster,
}

/// Combat-related properties of the player and of monsters.
#[derive(Clone, Copy, Debug, PartialEq, Eq, Structural)]
pub struct Fighter {
    pub max_hp: i32,
    pub hp: i32,
    pub defense: i32,
    pub power: i32,
    pub xp: i32,
    pub on_death: DeathCallback,
}

/// How a monster decides what to do on its turn.
#[derive(Debug)]
pub enum Ai {
    Basic,
    Confused { previous_ai: Box<Ai>, num_turns: i32 },
}

/// The body part an equippable item is worn on.
#[derive(Clone, Copy, Debug, PartialEq, Eq, Structural)]
pub enum Slot {
    LeftHand,
    RightHand,
    Head,
}

/// Equip state of an equippable item.
#[derive(Clone, Copy, Debug, PartialEq, Eq, Structural)]
pub struct Equipment {
    pub slot: Slot,
    pub equipped: bool,
}

/// The identity of an item, which decides its effect when used.
#[derive(Clone, Copy, Debug, PartialEq, Eq, Structural)]
pub enum Item {
    MinorHeal,
    Heal,
    MajorHeal,
    PotionPwr,
    PotionDef,
    PotionHp,
    ScrollLightning,
    ScrollConfusion,
    ScrollFireball,
    Sword,
}

/// Outcome of using an item.
#[derive(Clone, Copy, Debug, PartialEq, Eq, Structural)]
pub enum UseResult {
    UsedUp,
    UsedAndKept,
    Cancelled,
}

/// Outcome of one player input.
#[derive(Clone, Copy, Debug, PartialEq, Eq, Structural)]
pub enum PlayerAction {
    TookTurn,
    DidntTakeTurn,
    Exit,
}

/// Any entity of the dungeon: the player, a monster, an item on the floor
/// or the stairs. Its role comes from which optional parts it carries.
#[derive(Debug)]
pub struct Object {
    pub x: i32,
    pub y: i32,
    pub char: char,
    pub color: Color,
    pub name: String,
    pub blocks: bool,
    pub alive: bool,
    pub fighter: Option<Fighter>,
    pub ai: Option<Ai>,
    pub item: Option<Item>,
    pub equipment: Option<Equipment>,
    pub always_visible: bool,
    pub level: i32,
}

/// `v`, held within the range of `i32`.
pub open spec fn clamp_i32(v: int) -> int {
    if v < i32::MIN {
        i32::MIN as int
    } else if v > i32::MAX {
        i32::MAX as int
    } else {
        v
    }
}

/// `v + amount`, lowered to `ceiling` where it would pass it.
pub open spec fn capped_add(v: int, amount: int, ceiling: int) -> int {
    if v + amount > ceiling {
        ceiling
    } else {
        clamp_i32(v + amount)
    }
}

fn add_capped(v: i32, amount: i32, ceiling: i32) -> (r: i32)
    ensures
        r == capped_add(v as int, amount as int, ceiling as int),
{
    let sum: i64 = v as i64 + amount as i64;
    if sum > ceiling as i64 {
        ceiling
    } else if sum < i32::MIN as i64 {
        i32::MIN
    } else {
        sum as i32
    }
}

/// Squared euclidean distance between two points.
pub open spec fn dist_sq(x1: int, y1: int, x2: int, y2: int) -> int {
    (x2 - x1) * (x2 - x1) + (y2 - y1) * (y2 - y1)
}

/// Healing and raising a stat never go past the ceiling, however large the
/// amount; once at the ceiling, a further non-negative raise changes nothing.
pub proof fn lemma_raise_capped(o: Object, amount: int)
    requires
        o.fighter is Some,
        i32::MIN <= amount <= i32::MAX,
    ensures
        o.spec_healed(amount).fighter.unwrap().hp <= o.fighter.unwrap().max_hp,
        o.spec_power_raised(amount).fighter.unwrap().power <= MAX_POWER,
        o.spec_defense_raised(amount).fighter.unwrap().defense <= MAX_DEFENSE,
        o.spec_max_hp_raised(amount).fighter.unwrap().max_hp <= MAX_MAX_HP,
        amount >= 0 && o.fighter.unwrap().hp == o.fighter.unwrap().max_hp ==> o.spec_healed(amount) == o,
        amount >= 0 && o.fighter.unwrap().power == MAX_POWER ==> o.spec_power_raised(amount) == o,
        amount >= 0 && o.fighter.unwrap().defense == MAX_DEFENSE ==> o.spec_defense_raised(amount) == o,
        amount >= 0 && o.fighter.unwrap().max_hp == MAX_MAX_HP ==> o.spec_max_hp_raised(amount) == o,
{
    let f = o.fighter.unwrap();
    if amount >= 0 && f.hp == f.max_hp {
        assert(Fighter { hp: f.max_hp, ..f } == f);
    }
    if amount >= 0 && f.power == MAX_POWER {
        assert(Fighter { power: MAX_POWER, ..f } == f);
    }
    if amount >= 0 && f.defense == MAX_DEFENSE {
        assert(Fighter { defense: MAX_DEFENSE, ..f } == f);
    }
    if amount >= 0 && f.max_hp == MAX_MAX_HP {
        assert(Fighter { max_hp: MAX_MAX_HP, ..f } == f);
    }
}

impl Object {
    pub open spec fn spec_healed(self, amount: int) -> Object {
        match self.fighter {
            Some(f) => Object {
                fighter: Some(Fighter { hp: capped_add(f.hp as int, amount, f.max_hp as int) as i32, ..f }),
                ..self
            },
            None => self,
        }
    }

    pub open spec fn spec_power_raised(self, amount: int) -> Object {
        match self.fighter {
            Some(f) => Object {
                fighter: Some(Fighter { power: capped_add(f.power as int, amount, MAX_POWER as int) as i32, ..f }),
                ..self
            },
            None => self,
        }
    }

    pub open spec fn spec_defense_raised(self, amount: int) -> Object {
        match self.fighter {
            Some(f) => Object {
                fighter: Some(Fighter { defense: capped_add(f.defense as int, amount, MAX_DEFENSE as int) as i32, ..f }),
                ..self
            },
            None => self,
        }
    }

    pub open spec fn spec_max_hp_raised(self, amount: int) -> Object {
        match self.fighter {
            Some(f) => Object {
                fighter: Some(Fighter { max_hp: capped_add(f.max_hp as int, amount, MAX_MAX_HP as int) as i32, ..f }),
                ..self
            },
            None => self,
        }
    }

    /// A new entity with no fighter, AI, item or equipment part, not alive,
    /// at level 1.
    pub fn new(x: i32, y: i32, char: char, name: &str, color: Color, blocks: bool) -> (o: Object)
        ensures
            o.x == x,
            o.y == y,
            o.char == char,
            o.name@ == name@,
            o.color == color,
            o.blocks == blocks,
            !o.alive,
            o.fighter is None,
            o.ai is None,
            o.item is None,
            o.equipment is None,
            !o.always_visible,
            o.level == 1,
    {
        Object {
            x,
            y,
            char,
            color,
            name: String::from_str(name),
            blocks,
            alive: false,
            fighter: None,
            ai: None,
            item: None,
            equipment: None,
            always_visible: false,
            level: 1,
        }
    }

    pub fn pos(&self) -> (r: (i32, i32))
        ensures
            r == (self.x, self.y),
    {
        (self.x, self.y)
    }

    pub fn set_pos(&mut self, x: i32, y: i32)
        ensures
            *final(self) == (Object { x, y, ..*old(self) }),
    {
        self.x = x;
        self.y = y;
    }

    /// Squared distance to another entity.
    pub fn distance_sq_to(&self, other: &Object) -> (r: i128)
        ensures
            r == dist_sq(self.x as int, self.y as int, other.x as int, other.y as int),
    {
        self.distance_sq(other.x, other.y)
    }

    /// Squared distance to the point `(x, y)`.
    pub fn distance_sq(&self, x: i32, y: i32) -> (r: i128)
        ensures
            r == dist_sq(self.x as int, self.y as int, x as int, y as int),
    {
        let dx: i128 = x as i128 - self.x as i128;
        let dy: i128 = y as i128 - self.y as i128;
        assert(0 <= dx * dx <= 0x1_0000_0000_0000_0000) by (nonlinear_arith)
            requires
                -0x1_0000_0000 <= dx <= 0x1_0000_0000,
        ;
        assert(0 <= dy * dy <= 0x1_0000_0000_0000_0000) by (nonlinear_arith)
            requires
                -0x1_0000_0000 <= dy <= 0x1_0000_0000,
        ;
        dx * dx + dy * dy
    }

    /// Restores hit points, never beyond `max_hp`.
    pub fn heal(&mut self, amount: i32)
        ensures
            *final(self) == old(self).spec_healed(amount as int),
    {
        match self.fighter {
            Some(f) => {
                let mut g = f;
                g.hp = add_capped(f.hp, amount, f.max_hp);
                self.fighter = Some(g);
            },
            None => {},
        }
    }

    /// Raises attack power, never beyond `MAX_POWER`.
    pub fn inc_power(&mut self, amount: i32)
        ensures
            *final(self) == old(self).spec_power_raised(amount as int),
    {
        match self.fighter {
            Some(f) => {
                let mut g = f;
                g.power = add_capped(f.power, amount, MAX_POWER);
                self.fighter = Some(g);
            },
            None => {},
        }
    }

    /// Raises defense, never beyond `MAX_DEFENSE`.
    pub fn inc_defense(&mut self, amount: i32)
        ensures
            *final(self) == old(self).spec_defense_raised(amount as int),
    {
        match self.fighter {
            Some(f) => {
                let mut g = f;
                g.defense = add_capped(f.defense, amount, MAX_DEFENSE);
                self.fighter = Some(g);
            },
            None => {},
        }
    }

    /// Raises maximum hit points, never beyond `MAX_MAX_HP`.
    pub fn inc_max_hp(&mut self, amount: i32)
        ensures
            *final(self) == old(self).spec_max_hp_raised(amount as int),
    {
        match self.fighter {
            Some(f) => {
                let mut g = f;
                g.max_hp = add_capped(f.max_hp, amount, MAX_MAX_HP);
                self.fighter = Some(g);
            },
            None => {},
        }
    }
}

} // verus!
