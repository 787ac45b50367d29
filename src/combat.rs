use vstd::prelude::*;
use crate::game::{Game, LogLine, logged};
use crate::object::{clamp_i32, Color, DeathCallback, Fighter, Object};
use crate::text::{decimal, push_int};

verus! {

/// Text logged when the player dies.
pub open spec fn player_death_text() -> Seq<char> {
    "You died!"@
}

/// Text logged when a monster dies.
pub open spec fn monster_death_text(name: Seq<char>, xp: int) -> Seq<char> {
    name + " is dead! You gain "@ + decimal(xp) + " experience points."@
}

/// Text logged when an attack lands.
pub open spec fn hit_text(attacker: Seq<char>, target: Seq<char>, damage: int) -> Seq<char> {
    attacker + " attacks "@ + target + " for "@ + decimal(damage) + " hit points."@
}

/// Text logged when an attack does nothing.
pub open spec fn no_effect_text(attacker: Seq<char>, target: Seq<char>) -> Seq<char> {
    attacker + " attacks "@ + target + " but it has no effect!"@
}

/// The player's corpse: only its look changes.
pub open spec fn player_corpse(o: Object) -> Object {
    Object { char: '%', color: Color::DarkRed, ..o }
}

/// A monster's remains: not blocking, no fighter, no AI, renamed.
pub open spec fn monster_remains_name(name: Seq<char>) -> Seq<char> {
    "remains of "@ + name
}

pub open spec fn is_monster_remains(o2: Object, o: Object) -> bool {
    &&& o2.char == '%'
    &&& o2.color == Color::DarkRed
    &&& !o2.blocks
    &&& o2.fighter is None
    &&& o2.ai is None
    &&& o2.name@ == monster_remains_name(o.name@)
    &&& o2.x == o.x
    &&& o2.y == o.y
    &&& o2.alive == o.alive
    &&& o2.item == o.item
    &&& o2.equipment == o.equipment
    &&& o2.always_visible == o.always_visible
    &&& o2.level == o.level
}

/// What the death of `o`, by the role `cb`, does to it and to the log.
pub open spec fn died_as(o2: Object, o: Object, cb: DeathCallback, lines: Seq<LogLine>) -> bool {
    match cb {
        DeathCallback::Player => o2 == player_corpse(o) && lines == seq![
            (player_death_text(), Color::Red),
        ],
        DeathCallback::Monster => is_monster_remains(o2, o) && lines == seq![
            (monster_death_text(o.name@, o.fighter.unwrap().xp as int), Color::Orange),
        ],
    }
}

/// Hit points after taking `damage`: only a positive amount is subtracted.
pub open spec fn damaged_hp(hp: int, damage: int) -> int {
    if damage > 0 {
        clamp_i32(hp - damage)
    } else {
        hp
    }
}

/// `o` with its hit points lowered by `damage`, before any death check.
pub open spec fn wounded(o: Object, damage: int) -> Object {
    match o.fighter {
        Some(f) => Object {
            fighter: Some(Fighter { hp: damaged_hp(f.hp as int, damage) as i32, ..f }),
            ..o
        },
        None => o,
    }
}

/// Whether `damage` brings `o`'s hit points to zero or below.
pub open spec fn is_fatal(o: Object, damage: int) -> bool {
    o.fighter is Some && damaged_hp(o.fighter.unwrap().hp as int, damage) <= 0
}

/// The outcome of `take_damage`: the entity `o2`, the experience yielded `r`
/// and the lines logged.
pub open spec fn took_damage(
    o2: Object,
    r: Option<i32>,
    lines: Seq<LogLine>,
    o: Object,
    damage: int,
) -> bool {
    if is_fatal(o, damage) {
        let w = wounded(o, damage);
        &&& r == Some(o.fighter.unwrap().xp)
        &&& died_as(o2, Object { alive: false, ..w }, o.fighter.unwrap().on_death, lines)
    } else {
        &&& r is None
        &&& o2 == wounded(o, damage)
        &&& lines == Seq::<LogLine>::empty()
    }
}

/// The lines `take_damage` logs when `o` takes `damage`: its death line if
/// the damage is fatal, nothing otherwise.
pub open spec fn damage_log(o: Object, damage: int) -> Seq<LogLine> {
    if is_fatal(o, damage) {
        match o.fighter.unwrap().on_death {
            DeathCallback::Player => seq![(player_death_text(), Color::Red)],
            DeathCallback::Monster => seq![
                (monster_death_text(o.name@, o.fighter.unwrap().xp as int), Color::Orange),
            ],
        }
    } else {
        Seq::empty()
    }
}

/// The lines of a `take_damage` outcome are those `damage_log` gives.
pub proof fn lemma_damage_log(o2: Object, r: Option<i32>, lines: Seq<LogLine>, o: Object, damage: int)
    requires
        took_damage(o2, r, lines, o, damage),
    ensures
        lines == damage_log(o, damage),
{
}

/// Damage an attack by `a` deals to `t`: power minus defense, where a
/// missing fighter counts as zero.
pub open spec fn attack_damage(a: Object, t: Object) -> int {
    let p = match a.fighter {
        Some(f) => f.power as int,
        None => 0,
    };
    let d = match t.fighter {
        Some(f) => f.defense as int,
        None => 0,
    };
    clamp_i32(p - d)
}

/// `a` credited with the experience `xp`.
pub open spec fn credited(a: Object, xp: Option<i32>) -> Object {
    match (xp, a.fighter) {
        (Some(x), Some(f)) => Object {
            fighter: Some(Fighter { xp: clamp_i32(f.xp + x) as i32, ..f }),
            ..a
        },
        _ => a,
    }
}

/// Turns the dead player into a corpse.
pub fn player_death(player: &mut Object, game: &mut Game)
    ensures
        *final(player) == player_corpse(*old(player)),
        logged(*old(game), *final(game), seq![(player_death_text(), Color::Red)]),
{
    proof {
        reveal_strlit("You died!");
    }
    game.messages.add(String::from_str("You died!"), Color::Red);
    player.char = '%';
    player.color = Color::DarkRed;
    assert(final(game).messages@ =~= old(game).messages@ + seq![(player_death_text(), Color::Red)]);
}

/// Turns a dead monster into non-blocking remains that keep their place in
/// the entity collection.
pub fn monster_death(monster: &mut Object, game: &mut Game)
    requires
        old(monster).fighter is Some,
    ensures
        is_monster_remains(*final(monster), *old(monster)),
        logged(
            *old(game),
            *final(game),
            seq![
                (monster_death_text(old(monster).name@, old(monster).fighter.unwrap().xp as int), Color::Orange),
            ],
        ),
{
    let xp = match monster.fighter {
        Some(f) => f.xp,
        None => 0,
    };
    let mut text = monster.name.clone();
    text.append(" is dead! You gain ");
    push_int(&mut text, xp);
    text.append(" experience points.");
    game.messages.add(text, Color::Orange);
    monster.char = '%';
    monster.color = Color::DarkRed;
    monster.blocks = false;
    monster.fighter = None;
    monster.ai = None;
    let mut name = String::from_str("remains of ");
    name.append(monster.name.as_str());
    monster.name = name;
    assert(final(game).messages@ =~= old(game).messages@ + seq![
        (monster_death_text(old(monster).name@, old(monster).fighter.unwrap().xp as int), Color::Orange),
    ]);
}

impl DeathCallback {
    /// Runs the death transformation for this role.
    pub fn callback(self, object: &mut Object, game: &mut Game)
        requires
            self == DeathCallback::Monster ==> old(object).fighter is Some,
        ensures
            exists|lines: Seq<LogLine>|
                died_as(*final(object), *old(object), self, lines) && logged(
                    *old(game),
                    *final(game),
                    lines,
                ),
    {
        match self {
            DeathCallback::Player => player_death(object, game),
            DeathCallback::Monster => monster_death(object, game),
        }
    }
}

/// What `a1.attack(t1)` does: `a2` and `t2` are the attacker and target
/// after it, `g2` the session.
pub open spec fn attack_outcome(a1: Object, t1: Object, g1: Game, a2: Object, t2: Object, g2: Game) -> bool {
    let d = attack_damage(a1, t1);
    if d > 0 {
        exists|r: Option<i32>, lines: Seq<LogLine>|
            took_damage(t2, r, lines, t1, d) && a2 == credited(a1, r) && logged(
                g1,
                g2,
                seq![(hit_text(a1.name@, t1.name@, d), Color::Orange)] + lines,
            )
    } else {
        &&& t2 == t1
        &&& a2 == a1
        &&& logged(g1, g2, seq![(no_effect_text(a1.name@, t1.name@), Color::Orange)])
    }
}

impl Object {
    /// Lowers hit points by `damage` where it is positive (held within the
    /// range of `i32`). When they reach zero or below the entity is no
    /// longer alive, its death transformation runs, and the experience it
    /// yields is returned.
    pub fn take_damage(&mut self, damage: i32, game: &mut Game) -> (r: Option<i32>)
        ensures
            exists|lines: Seq<LogLine>|
                took_damage(*final(self), r, lines, *old(self), damage as int) && logged(
                    *old(game),
                    *final(game),
                    lines,
                ),
    {
        match self.fighter {
            Some(f) => {
                if damage > 0 {
                    let mut g = f;
                    g.hp = if f.hp as i64 - damage as i64 >= i32::MIN as i64 {
                        f.hp - damage
                    } else {
                        i32::MIN
                    };
                    self.fighter = Some(g);
                }
            },
            None => {},
        }
        match self.fighter {
            Some(f) => {
                if f.hp <= 0 {
                    self.alive = false;
                    f.on_death.callback(self, game);
                    return Some(f.xp);
                }
            },
            None => {},
        }
        assert(logged(*old(game), *final(game), Seq::<LogLine>::empty())) by {
            assert(final(game).messages@ =~= old(game).messages@ + Seq::<LogLine>::empty());
        }
        None
    }

    /// Attacks `target` for the attacker's power minus the target's defense;
    /// nothing is dealt when that is not positive. Experience the target
    /// yields on death is credited to the attacker.
    pub fn attack(&mut self, target: &mut Object, game: &mut Game)
        ensures
            attack_outcome(*old(self), *old(target), *old(game), *final(self), *final(target), *final(game)),
    {
        let power: i64 = match self.fighter {
            Some(f) => f.power as i64,
            None => 0,
        };
        let defense: i64 = match target.fighter {
            Some(f) => f.defense as i64,
            None => 0,
        };
        let raw: i64 = power - defense;
        let damage: i32 = if raw > i32::MAX as i64 {
            i32::MAX
        } else if raw < i32::MIN as i64 {
            i32::MIN
        } else {
            raw as i32
        };
        let ghost g0 = *game;
        if damage > 0 {
            let mut text = self.name.clone();
            text.append(" attacks ");
            text.append(target.name.as_str());
            text.append(" for ");
            push_int(&mut text, damage);
            text.append(" hit points.");
            let ghost line = (text@, Color::Orange);
            game.messages.add(text, Color::Orange);
            let ghost g1 = *game;
            let r = target.take_damage(damage, game);
            match r {
                Some(xp) => {
                    match self.fighter {
                        Some(f) => {
                            let mut g = f;
                            let sum: i64 = f.xp as i64 + xp as i64;
                            g.xp = if sum > i32::MAX as i64 {
                                i32::MAX
                            } else if sum < i32::MIN as i64 {
                                i32::MIN
                            } else {
                                sum as i32
                            };
                            self.fighter = Some(g);
                        },
                        None => {},
                    }
                },
                None => {},
            }
            proof {
                let lines = choose|lines: Seq<LogLine>|
                    took_damage(*target, r, lines, *old(target), damage as int) && logged(
                        g1,
                        *game,
                        lines,
                    );
                assert(game.messages@ =~= g0.messages@ + (seq![line] + lines));
            }
        } else {
            let mut text = self.name.clone();
            text.append(" attacks ");
            text.append(target.name.as_str());
            text.append(" but it has no effect!");
            let ghost line = (text@, Color::Orange);
            game.messages.add(text, Color::Orange);
            assert(game.messages@ =~= g0.messages@ + seq![line]);
        }
    }
}

/// An attacker whose power does not exceed the target's defense deals no
/// damage: the attack leaves the target, its hit points included, as it was.
pub proof fn lemma_no_advantage_no_damage(a1: Object, t1: Object, g1: Game, a2: Object, t2: Object, g2: Game)
    requires
        a1.fighter is Some,
        t1.fighter is Some,
        a1.fighter.unwrap().power <= t1.fighter.unwrap().defense,
        attack_outcome(a1, t1, g1, a2, t2, g2),
    ensures
        attack_damage(a1, t1) <= 0,
        t2 == t1,
        t2.fighter.unwrap().hp == t1.fighter.unwrap().hp,
{
}

/// An attack only appends to the log.
pub proof fn lemma_attack_logs(a1: Object, t1: Object, g1: Game, a2: Object, t2: Object, g2: Game)
    requires
        attack_outcome(a1, t1, g1, a2, t2, g2),
    ensures
        exists|lines: Seq<LogLine>| logged(g1, g2, lines),
{
    if attack_damage(a1, t1) > 0 {
        let (r, lines) = choose|r: Option<i32>, lines: Seq<LogLine>|
            took_damage(t2, r, lines, t1, attack_damage(a1, t1)) && a2 == credited(a1, r) && logged(
                g1,
                g2,
                seq![(hit_text(a1.name@, t1.name@, attack_damage(a1, t1)), Color::Orange)] + lines,
            );
        assert(logged(g1, g2, seq![(hit_text(a1.name@, t1.name@, attack_damage(a1, t1)), Color::Orange)] + lines));
    } else {
        assert(logged(g1, g2, seq![(no_effect_text(a1.name@, t1.name@), Color::Orange)]));
    }
}

/// Entity `attacker_id` of `objects` attacks entity `target_id`.
pub(crate) fn attack_in(attacker_id: usize, target_id: usize, game: &mut Game, objects: &mut Vec<Object>)
    requires
        attacker_id < old(objects)@.len(),
        target_id < old(objects)@.len(),
        attacker_id != target_id,
    ensures
        exists|a2: Object, t2: Object|
            attack_outcome(
                old(objects)@[attacker_id as int],
                old(objects)@[target_id as int],
                *old(game),
                a2,
                t2,
                *final(game),
            ) && final(objects)@ == old(objects)@.update(attacker_id as int, a2).update(target_id as int, t2),
{
    let mut attacker = Object::new(0, 0, ' ', "", Color::White, false);
    std::mem::swap(&mut attacker, &mut objects[attacker_id]);
    let ghost mid = objects@;
    attacker.attack(&mut objects[target_id], game);
    let ghost t2 = objects@[target_id as int];
    std::mem::swap(&mut attacker, &mut objects[attacker_id]);
    proof {
        assert(objects@ =~= old(objects)@.update(attacker_id as int, objects@[attacker_id as int]).update(target_id as int, t2));
    }
}

} // verus!
