//! The plant lifecycle state machine: aging, fire, respiration, growth and
//! reproduction, driven once per tick against the grid cell the plant
//! occupies.

use vstd::prelude::*;
use crate::board::{Board, BoardSection, Effect, Location};

verus! {

/// Probabilities are integer thresholds in parts per million: a uniform
/// draw from `[0, CHANCE_SCALE)` falls below a threshold `t` with
/// probability `t / CHANCE_SCALE`.
pub const CHANCE_SCALE: u64 = 1_000_000;

/// The enumerated plant kinds, each carrying fixed lifecycle parameters.
#[derive(Clone, Copy, Debug, PartialEq, Eq, Structural)]
pub enum PlantKind {
    Fern,
    Tree,
}

impl PlantKind {
    /// Ticks a plant of this kind may live through.
    pub open spec fn age_max_of(self) -> int {
        match self {
            PlantKind::Fern => 12,
            PlantKind::Tree => 80,
        }
    }

    /// Health ceiling of this kind.
    pub open spec fn health_max_of(self) -> int {
        match self {
            PlantKind::Fern => 10,
            PlantKind::Tree => 18,
        }
    }

    /// Size ceiling of this kind.
    pub open spec fn size_max_of(self) -> int {
        match self {
            PlantKind::Fern => 8,
            PlantKind::Tree => 50,
        }
    }

    /// Reproduction threshold of this kind, in parts per million.
    pub open spec fn offspring_chance_of(self) -> int {
        match self {
            PlantKind::Fern => 200_000,
            PlantKind::Tree => 200_000,
        }
    }

    /// How far (Chebyshev distance) a seedling may land from its parent.
    pub open spec fn offspring_range_of(self) -> int {
        match self {
            PlantKind::Fern => 1,
            PlantKind::Tree => 3,
        }
    }

    /// Ignition threshold of this kind under outbreak conditions, in parts
    /// per million. Read by the driver, not by the lifecycle itself.
    pub open spec fn flammability_of(self) -> int {
        match self {
            PlantKind::Fern => 999_960,
            PlantKind::Tree => 999_990,
        }
    }

    /// The resource thresholds a plant of this kind must meet each tick.
    pub open spec fn requirements_of(self) -> Requirements {
        match self {
            PlantKind::Fern => Requirements {
                light: Effect::Light(20),
                moisture: Effect::Moisture(2),
            },
            PlantKind::Tree => Requirements {
                light: Effect::Light(20),
                moisture: Effect::Moisture(4),
            },
        }
    }

    /// The glyph a live plant of this kind is plotted with.
    pub open spec fn icon_spec(self) -> char {
        match self {
            PlantKind::Fern => '🌿',
            PlantKind::Tree => '🌲',
        }
    }

    pub fn icon(&self) -> (c: char)
        ensures
            c == self.icon_spec(),
    {
        match self {
            PlantKind::Fern => '🌿',
            PlantKind::Tree => '🌲',
        }
    }
}

/// Resource thresholds, expressed as the `Effect` deltas a cell must offer.
#[derive(Clone, Copy, Debug, PartialEq, Eq, Structural)]
pub struct Requirements {
    pub light: Effect,
    pub moisture: Effect,
}

/// Plant entity that has a limited lifespan.
#[derive(Debug)]
pub struct Plant {
    pub age: i64,
    pub age_max: i64,
    pub flammability_chance: u64,
    pub health: i64,
    pub health_max: i64,
    pub kind: PlantKind,
    pub location: Location,
    pub messages: Vec<String>,
    pub offspring: Vec<Plant>,
    pub offspring_chance: u64,
    pub offspring_range: i64,
    pub on_fire: bool,
    pub requirements: Requirements,
    pub size: i64,
    pub size_max: i64,
}

impl Plant {
    /// The moisture threshold this plant must draw from its cell each tick.
    pub open spec fn moisture_requirement(self) -> int {
        match self.requirements.moisture {
            Effect::Moisture(v) => v as int,
            _ => 0,
        }
    }

    /// The scalar fields sit in their domains, the coordinate is on a board
    /// of more than one cell (so a neighborhood always exists), and the
    /// bounded fields leave room for the lifecycle arithmetic.
    pub open spec fn wf(self) -> bool {
        &&& self.location.wf()
        &&& 1 <= self.location.max < i64::MAX
        &&& 0 <= self.age
        &&& 0 <= self.age_max
        &&& 0 <= self.health <= self.health_max
        &&& 1 <= self.health_max <= 1_000_000_000
        &&& 1 <= self.size_max <= i64::MAX / 5
        &&& 0 <= self.size <= self.size_max
        &&& self.offspring_chance <= CHANCE_SCALE
        &&& self.flammability_chance <= CHANCE_SCALE
        &&& 1 <= self.offspring_range
        &&& self.location.max + self.offspring_range <= i64::MAX
        &&& self.requirements.moisture matches Effect::Moisture(v) && 0 <= v
        &&& self.requirements.light matches Effect::Light(w) && 0 <= w
    }

    /// The plant has not died: dead (`health == 0`) is terminal.
    pub open spec fn is_alive(self) -> bool {
        self.health > 0
    }

    /// The plant is mature: its size exceeds 80% of its kind's ceiling.
    pub open spec fn mature(self) -> bool {
        5 * self.size > 4 * self.size_max
    }

    /// `self` is a fresh seedling produced by `parent` and placed at `loc`:
    /// newborn counters, the parent's kind-derived parameters, and empty
    /// transient buffers.
    pub open spec fn seedling_of(self, parent: Plant, loc: Location) -> bool {
        &&& self.age == 0
        &&& self.age_max == parent.age_max
        &&& self.flammability_chance == parent.flammability_chance
        &&& self.health == 1
        &&& self.health_max == parent.health_max
        &&& self.kind == parent.kind
        &&& self.location == loc
        &&& self.messages@.len() == 0
        &&& self.offspring@.len() == 0
        &&& self.offspring_chance == parent.offspring_chance
        &&& self.offspring_range == parent.offspring_range
        &&& self.on_fire == false
        &&& self.requirements == parent.requirements
        &&& self.size == 1
        &&& self.size_max == parent.size_max
    }

    /// `self` is a newly seeded plant of `kind` on a board with `max + 1`
    /// cells per side.
    pub open spec fn is_fresh(self, kind: PlantKind, max: int) -> bool {
        &&& self.age == 0
        &&& self.age_max == kind.age_max_of()
        &&& self.flammability_chance == kind.flammability_of()
        &&& self.health == 1
        &&& self.health_max == kind.health_max_of()
        &&& self.kind == kind
        &&& self.location.wf()
        &&& self.location.max == max
        &&& self.messages@.len() == 0
        &&& self.offspring@.len() == 0
        &&& self.offspring_chance == kind.offspring_chance_of()
        &&& self.offspring_range == kind.offspring_range_of()
        &&& self.on_fire == false
        &&& self.requirements == kind.requirements_of()
        &&& self.size == 1
        &&& self.size_max == kind.size_max_of()
    }

    /// A newly seeded plant of the given kind, placed at random on the
    /// board.
    pub fn new(kind: PlantKind, board: &Board) -> (p: Plant)
        requires
            board.wf(),
            1 <= board.size,
            board.size + 3 <= i64::MAX,
        ensures
            p.wf(),
            p.is_fresh(kind, board.size as int),
    {
        // determine age_max
        let age_max: i64 = match kind {
            PlantKind::Fern => 12,
            PlantKind::Tree => 80,
        };

        // will it burn?
        let flammability_chance: u64 = match kind {
            PlantKind::Fern => 999_960,
            PlantKind::Tree => 999_990,
        };

        // determine health_max
        let health_max: i64 = match kind {
            PlantKind::Fern => 10,
            PlantKind::Tree => 18,
        };

        // determine offspring factor
        let offspring_chance: u64 = match kind {
            PlantKind::Fern => 200_000,
            PlantKind::Tree => 200_000,
        };

        let offspring_range: i64 = match kind {
            PlantKind::Fern => 1,
            PlantKind::Tree => 3,
        };

        // determine requirements based on kind
        let requirements = match kind {
            PlantKind::Fern => Requirements {
                light: Effect::Light(20),
                moisture: Effect::Moisture(2),
            },
            PlantKind::Tree => Requirements {
                light: Effect::Light(20),
                moisture: Effect::Moisture(4),
            },
        };

        // determine size based on kind
        let size_max: i64 = match kind {
            PlantKind::Fern => 8,
            PlantKind::Tree => 50,
        };

        Plant {
            age: 0,
            age_max,
            flammability_chance,
            on_fire: false,
            health: 1,
            health_max,
            kind,
            location: Location::new_random(board.size),
            messages: Vec::new(),
            offspring: Vec::new(),
            offspring_chance,
            offspring_range,
            requirements,
            size: 1,
            size_max,
        }
    }

    /// Whether the plant still lives.
    pub fn alive(&self) -> (r: bool)
        ensures
            r == self.is_alive(),
    {
        self.health > 0
    }

    /// Saturating subtraction from health, floor zero.
    pub fn damage(&mut self, amount: i64)
        requires
            0 <= amount,
            0 <= old(self).health,
        ensures
            *final(self) == (Plant {
                health: if old(self).health - amount >= 0 {
                    (old(self).health - amount) as i64
                } else {
                    0
                },
                ..*old(self)
            }),
    {
        if self.health > amount {
            self.health = self.health - amount;
        } else {
            self.health = 0;
        }
    }

    /// Health and size each increment by one, capped at their ceilings.
    pub fn grow(&mut self)
        requires
            old(self).health <= old(self).health_max,
            old(self).size <= old(self).size_max,
        ensures
            *final(self) == (Plant {
                health: if old(self).health < old(self).health_max {
                    (old(self).health + 1) as i64
                } else {
                    old(self).health
                },
                size: if old(self).size < old(self).size_max {
                    (old(self).size + 1) as i64
                } else {
                    old(self).size
                },
                ..*old(self)
            }),
    {
        if self.health < self.health_max {
            self.health = self.health + 1;
        }
        if self.size < self.size_max {
            self.size = self.size + 1;
        }
    }

    /// Spawn `num` fresh seedlings, all placed at one location picked at
    /// random from the parent's reproduction range: the Moore neighborhood
    /// when `offspring_range` is 1, the wider clipped square otherwise.
    /// The parent itself loses nothing by reproducing.
    #[verifier::loop_isolation(false)]
    pub fn propagate(&mut self, num: i64) -> (offspring: Vec<Plant>)
        requires
            old(self).wf(),
            0 <= num,
        ensures
            *final(self) == *old(self),
            offspring@.len() == num,
            exists|loc: Location|
                #[trigger] old(self).location.in_range_of(loc, old(self).offspring_range as int)
                && forall|i: int| 0 <= i < offspring@.len()
                    ==> (#[trigger] offspring@[i]).seedling_of(*old(self), loc),
            forall|i: int| 0 <= i < offspring@.len() ==> (#[trigger] offspring@[i]).wf(),
    {
        // determine nearby location
        let locations = if self.offspring_range == 1 {
            self.location.nearby()
        } else {
            self.location.within_range(self.offspring_range)
        };
        proof {
            crate::board::lemma_range_count_positive(
                self.location,
                self.offspring_range as int,
            );
        }
        let len = locations.len();
        assert(len >= 3);
        // Confine the draw to a prefix of the candidates where the vector is
        // astronomically long; it keeps the index within every integer
        // domain involved.
        let hi: usize = if len - 1 > 1_000_000_000 {
            1_000_000_000
        } else {
            len - 1
        };
        let pick = crate::rng::random_upto(hi as i64) as usize;
        assert(pick < locations@.len());
        let location = locations[pick];
        assert(self.location.in_range_of(location, self.offspring_range as int));

        let mut offspring: Vec<Plant> = Vec::new();
        let mut k: i64 = 0;
        while k < num
            invariant
                0 <= k <= num,
                offspring@.len() == k,
                self.location.in_range_of(location, self.offspring_range as int),
                forall|i: int| 0 <= i < k
                    ==> (#[trigger] offspring@[i]).seedling_of(*self, location),
                forall|i: int| 0 <= i < k ==> (#[trigger] offspring@[i]).wf(),
                *self == *old(self),
            decreases num - k,
        {
            // create a new seedling
            let sprout = Plant {
                age: 0,
                flammability_chance: self.flammability_chance,
                health: 1,
                health_max: self.health_max,
                kind: self.kind,
                location,
                age_max: self.age_max,
                messages: Vec::new(),
                offspring: Vec::new(),
                offspring_chance: self.offspring_chance,
                offspring_range: self.offspring_range,
                on_fire: false,
                requirements: self.requirements,
                size: 1,
                size_max: self.size_max,
            };
            offspring.push(sprout);
            k = k + 1;
        }
        offspring
    }
}

impl Plant {
    /// One possible outcome of the fire roll: the plant loses `d` points;
    /// if that kills it the tick ends, and otherwise respiration still runs
    /// against the cell — a burning plant cannot consume moisture, but a
    /// cell below the threshold is still drained and costs one more point.
    pub open spec fn burn_outcome(
        o: Plant,
        f: Plant,
        os: BoardSection,
        fs: BoardSection,
        d: int,
    ) -> bool {
        let h1: int = if o.health - d >= 0 {
            o.health - d
        } else {
            0
        };
        if h1 == 0 {
            &&& f.health == 0
            &&& f.size == o.size
            &&& f.offspring@ == o.offspring@
            &&& fs.conditions.moisture == os.conditions.moisture
        } else if os.conditions.moisture >= o.moisture_requirement() {
            &&& f.health == h1
            &&& f.size == o.size
            &&& f.offspring@ == o.offspring@
            &&& fs.conditions.moisture == os.conditions.moisture
        } else {
            &&& f.health == (if h1 - 1 >= 0 {
                h1 - 1
            } else {
                0
            })
            &&& f.size == o.size
            &&& f.offspring@ == o.offspring@
            &&& fs.conditions.moisture == 0
        }
    }

    /// Respiration with sufficient moisture on a plant that is not burning:
    /// the cell loses exactly the threshold amount, the plant grows one
    /// step, and a plant mature after growing overwrites its offspring
    /// buffer with the reproduction roll's outcome — one seedling placed
    /// somewhere in its range, or nothing at all.
    pub open spec fn respiration_post(
        o: Plant,
        f: Plant,
        os: BoardSection,
        fs: BoardSection,
    ) -> bool {
        &&& f.health == (if o.health < o.health_max {
            o.health + 1
        } else {
            o.health as int
        })
        &&& f.size == (if o.size < o.size_max {
            o.size + 1
        } else {
            o.size as int
        })
        &&& fs.conditions.moisture == os.conditions.moisture - o.moisture_requirement()
        &&& if f.mature() {
            ||| f.offspring@.len() == 0
            ||| {
                &&& f.offspring@.len() == 1
                &&& f.offspring@[0].wf()
                &&& exists|loc: Location|
                    #[trigger] o.location.in_range_of(loc, o.offspring_range as int)
                        && f.offspring@[0].seedling_of(o, loc)
            }
        } else {
            f.offspring@ == o.offspring@
        }
    }

    /// How one tick transforms a plant and its grid cell, the message log
    /// aside. The random draws of the tick — the fire damage magnitude, the
    /// reproduction roll, the seedling's placement — are not pinned: the
    /// relation holds of every outcome of them.
    pub open spec fn lifecycle_post(o: Plant, f: Plant, os: BoardSection, fs: BoardSection) -> bool {
        &&& f.age == o.age + 1
        &&& f.age_max == o.age_max
        &&& f.flammability_chance == o.flammability_chance
        &&& f.health_max == o.health_max
        &&& f.kind == o.kind
        &&& f.location == o.location
        &&& f.offspring_chance == o.offspring_chance
        &&& f.offspring_range == o.offspring_range
        &&& f.on_fire == o.on_fire
        &&& f.requirements == o.requirements
        &&& f.size_max == o.size_max
        &&& fs.location == os.location
        &&& fs.conditions.light == os.conditions.light
        &&& fs.conditions.oxygen == os.conditions.oxygen
        &&& if o.health == 0 {
            // dead is terminal: nothing but the age counter moves
            &&& f.health == 0
            &&& f.size == o.size
            &&& f.offspring@ == o.offspring@
            &&& fs.conditions.moisture == os.conditions.moisture
        } else if o.age + 1 > o.age_max {
            // death by old age takes priority over all else
            &&& f.health == 0
            &&& f.size == o.size
            &&& f.offspring@ == o.offspring@
            &&& fs.conditions.moisture == os.conditions.moisture
        } else if o.on_fire {
            exists|d: int|
                0 <= d <= o.health_max / 10 && #[trigger] Self::burn_outcome(o, f, os, fs, d)
        } else if os.conditions.moisture >= o.moisture_requirement() {
            Self::respiration_post(o, f, os, fs)
        } else {
            // insufficient moisture: the cell is fully drained and the
            // plant takes one point of damage, however large the shortfall
            &&& f.health == (if o.health - 1 >= 0 {
                o.health - 1
            } else {
                0
            })
            &&& f.size == o.size
            &&& f.offspring@ == o.offspring@
            &&& fs.conditions.moisture == 0
        }
    }

    /// One tick of biology against the plant's own grid cell: aging, death
    /// by old age, fire damage, respiration, growth and reproduction.
    /// Offspring are buffered on the plant itself; no separate batch ever
    /// comes back.
    pub fn biology(&mut self, section: &mut BoardSection) -> (extra: Option<Vec<Plant>>)
        requires
            old(self).wf(),
            old(self).age < i64::MAX,
            old(section).conditions.wf(),
        ensures
            extra is None,
            Self::lifecycle_post(*old(self), *final(self), *old(section), *final(section)),
            final(self).messages@ == old(self).messages@,
            final(self).wf(),
            final(section).conditions.wf(),
            final(section).location == old(section).location,
    {
        self.age = self.age + 1;
        let ghost mut burn_toll: int = 0;

        if self.alive() {
            // death upon exhaustion of lifespan
            if self.age > self.age_max {
                self.health = 0;
                // do not continue if we are dead
                return None;
            }

            // fire burns before anything else may happen
            if self.on_fire {
                let roll = crate::rng::random_upto(999_999);
                proof {
                    lemma_burn_damage_bound(self.health_max as int, roll as int);
                }
                let calc_damage = self.health_max * roll / 10_000_000;
                proof {
                    burn_toll = calc_damage as int;
                }
                self.damage(calc_damage);
                if !self.alive() {
                    assert(Self::burn_outcome(
                        *old(self),
                        *self,
                        *old(section),
                        *section,
                        burn_toll,
                    ));
                    return None;
                }
            }

            // Respiration
            match self.requirements.moisture {
                Effect::Moisture(v) => {
                    if section.conditions.moisture >= v && !self.on_fire {
                        // consume moisture from section
                        section.conditions.moisture = section.conditions.moisture - v;
                        self.grow();
                        // must be mature to reproduce
                        if 5 * self.size > 4 * self.size_max {
                            // establish chance to propagate
                            let spawn_roll = crate::rng::random_upto(999_999);
                            if (spawn_roll as u64) < self.offspring_chance {
                                let brood = self.propagate(1);
                                self.offspring = brood;
                            } else {
                                self.offspring = Vec::new();
                            }
                        }
                    } else if section.conditions.moisture < v {
                        // use all available moisture even though we take damage
                        section.conditions.moisture = 0;
                        self.damage(1);
                    }
                },
                _ => {},
            }
            proof {
                if old(self).age + 1 <= old(self).age_max && old(self).on_fire {
                    assert(Self::burn_outcome(
                        *old(self),
                        *self,
                        *old(section),
                        *section,
                        burn_toll,
                    ));
                }
            }
        }
        None
    }
}

/// The digit characters of `n` in decimal, most significant first.
/// Negative numbers have no digits.
pub open spec fn dec_digits(n: int) -> Seq<char>
    decreases n,
{
    if n < 0 {
        Seq::empty()
    } else if n < 10 {
        seq![dec_digit(n)]
    } else {
        dec_digits(n / 10).push(dec_digit(n % 10))
    }
}

/// One decimal digit as a character.
pub open spec fn dec_digit(d: int) -> char {
    if d == 0 {
        '0'
    } else if d == 1 {
        '1'
    } else if d == 2 {
        '2'
    } else if d == 3 {
        '3'
    } else if d == 4 {
        '4'
    } else if d == 5 {
        '5'
    } else if d == 6 {
        '6'
    } else if d == 7 {
        '7'
    } else if d == 8 {
        '8'
    } else {
        '9'
    }
}

/// A sequence read back to front.
pub open spec fn rev_chars(s: Seq<char>) -> Seq<char> {
    Seq::new(s.len(), |i: int| s[s.len() - 1 - i])
}

/// Relies on std's `String::push`: it appends exactly the one character at
/// the end of the string.
#[verifier::external_body]
fn string_push(s: &mut String, c: char)
    ensures
        final(s)@ == old(s)@.push(c),
{
    s.push(c);
}

/// The character for one digit value.
fn digit_char(d: i64) -> (c: char)
    requires
        0 <= d < 10,
    ensures
        c == dec_digit(d as int),
{
    match d {
        0 => '0',
        1 => '1',
        2 => '2',
        3 => '3',
        4 => '4',
        5 => '5',
        6 => '6',
        7 => '7',
        8 => '8',
        _ => '9',
    }
}

/// Append the decimal digits of `n` to the string.
fn push_decimal(out: &mut String, n: i64)
    requires
        0 <= n,
    ensures
        final(out)@ == old(out)@ + dec_digits(n as int),
{
    // collect the digits, least significant first
    let mut digits: Vec<char> = Vec::new();
    let mut rest: i64 = n;
    loop
        invariant_except_break
            0 <= n,
            0 <= rest,
            digits@.len() == 0 ==> rest == n,
            digits@.len() > 0 ==> dec_digits(n as int) == dec_digits(rest as int)
                + rev_chars(digits@),
            digits@.len() > 0 ==> rest > 0,
        ensures
            dec_digits(n as int) == rev_chars(digits@),
        decreases rest,
    {
        let ghost before = digits@;
        let d = rest % 10;
        digits.push(digit_char(d));
        proof {
            assert(rev_chars(digits@) =~= seq![dec_digit(d as int)] + rev_chars(before));
        }
        let last = rest;
        rest = rest / 10;
        proof {
            if last >= 10 {
                assert(dec_digits(last as int)
                    == dec_digits(last as int / 10).push(dec_digit(last as int % 10)));
                assert(dec_digits(last as int)
                    =~= dec_digits(rest as int) + seq![dec_digit(d as int)]);
                if before.len() > 0 {
                    assert(dec_digits(n as int)
                        =~= dec_digits(rest as int) + rev_chars(digits@));
                }
            } else {
                assert(rest == 0);
                assert(dec_digits(last as int) =~= seq![dec_digit(d as int)]);
                if before.len() > 0 {
                    assert(dec_digits(n as int) =~= rev_chars(digits@));
                }
            }
        }
        if rest == 0 {
            break;
        }
    }
    // write them out, most significant first
    let total = digits.len();
    let mut i: usize = total;
    while i > 0
        invariant
            0 <= i <= total,
            total == digits@.len(),
            out@ == old(out)@ + rev_chars(digits@).take(total - i),
        decreases i,
    {
        i = i - 1;
        string_push(out, digits[i]);
        proof {
            assert(out@ =~= old(out)@ + rev_chars(digits@).take(total - i));
        }
    }
    proof {
        assert(rev_chars(digits@).take(total as int) =~= rev_chars(digits@));
    }
}

/// The kind's name as it appears in a summary line.
pub open spec fn kind_label(kind: PlantKind) -> Seq<char> {
    match kind {
        PlantKind::Fern => "Fern"@,
        PlantKind::Tree => "Tree"@,
    }
}

/// A location written out field by field.
pub open spec fn location_text(l: Location) -> Seq<char> {
    "Location { max: "@ + dec_digits(l.max as int) + ", x: "@ + dec_digits(l.x as int)
        + ", y: "@ + dec_digits(l.y as int) + " }"@
}

/// The one-line description `summary` returns: the plant's kind and its
/// age, health and size counters over their ceilings, then its location.
pub open spec fn summary_text(p: Plant) -> Seq<char> {
    "Plant { kind: "@ + kind_label(p.kind) + " age: "@ + dec_digits(p.age as int) + "/"@
        + dec_digits(p.age_max as int) + ", health: "@ + dec_digits(p.health as int) + "/"@
        + dec_digits(p.health_max as int) + ", size: "@ + dec_digits(p.size as int) + "/"@
        + dec_digits(p.size_max as int) + " location: "@ + location_text(p.location) + "}"@
}

impl Plant {
    /// A one-line description of the plant's state for the driver's log.
    pub fn summary(&self) -> (r: String)
        requires
            self.wf(),
        ensures
            r@ == summary_text(*self),
    {
        let mut out = String::from_str("Plant { kind: ");
        match self.kind {
            PlantKind::Fern => out.append("Fern"),
            PlantKind::Tree => out.append("Tree"),
        }
        out.append(" age: ");
        push_decimal(&mut out, self.age);
        out.append("/");
        push_decimal(&mut out, self.age_max);
        out.append(", health: ");
        push_decimal(&mut out, self.health);
        out.append("/");
        push_decimal(&mut out, self.health_max);
        out.append(", size: ");
        push_decimal(&mut out, self.size);
        out.append("/");
        push_decimal(&mut out, self.size_max);
        out.append(" location: ");
        out.append("Location { max: ");
        push_decimal(&mut out, self.location.max);
        out.append(", x: ");
        push_decimal(&mut out, self.location.x);
        out.append(", y: ");
        push_decimal(&mut out, self.location.y);
        out.append(" }");
        out.append("}");
        proof {
            assert(out@ =~= summary_text(*self));
        }
        out
    }
}

/// What a plant's death writes into its message log.
pub open spec fn death_message(kind: PlantKind) -> Seq<char> {
    match kind {
        PlantKind::Fern => "The Fern perishes"@,
        PlantKind::Tree => "The Tree perishes"@,
    }
}

impl crate::evolve::Evolve for Plant {
    /// A tick may run when the plant's fields sit in their domains, its age
    /// counter has room, and the cell's conditions are in their domain.
    open spec fn evolvable(&self, section: &BoardSection) -> bool {
        &&& self.wf()
        &&& self.age < i64::MAX
        &&& section.conditions.wf()
    }

    /// One tick: age, then — while alive — die of old age, burn, respire,
    /// grow and perhaps reproduce; a death during the tick appends one
    /// message to the plant's log.
    fn evolve(&mut self, section: &mut BoardSection)
        ensures
            Plant::lifecycle_post(*old(self), *final(self), *old(section), *final(section)),
            final(self).wf(),
            final(section).conditions.wf(),
            final(self).messages@.len() == old(self).messages@.len() + (
            if old(self).is_alive() && !final(self).is_alive() {
                1int
            } else {
                0int
            }),
            forall|i: int| 0 <= i < old(self).messages@.len()
                ==> final(self).messages@[i] == old(self).messages@[i],
            (old(self).is_alive() && !final(self).is_alive())
                ==> final(self).messages@.last()@ == death_message(old(self).kind),
    {
        let was_alive = self.health > 0;
        // biology buffers offspring on the plant itself; no batch comes back
        let _ = self.biology(section);
        let ghost mid = *self;
        if self.health == 0 && was_alive {
            let text = match self.kind {
                PlantKind::Fern => "The Fern perishes",
                PlantKind::Tree => "The Tree perishes",
            };
            self.messages.push(String::from_str(text));
        }
        proof {
            // pushing the death message moves no field that the lifecycle
            // relation speaks of; carry its fire witness over
            if old(self).health > 0 && old(self).age + 1 <= old(self).age_max
                && old(self).on_fire {
                let d = choose|d: int|
                    0 <= d <= old(self).health_max / 10
                        && Plant::burn_outcome(*old(self), mid, *old(section), *section, d);
                assert(Plant::burn_outcome(*old(self), *self, *old(section), *section, d));
            }
        }
    }
}

/// Law: a plant that has already outlived `age_max` has `health == 0` after
/// its next tick, whatever its health was beforehand and whatever the tick's
/// random draws did.
pub proof fn lemma_death_by_old_age(o: Plant, f: Plant, os: BoardSection, fs: BoardSection)
    requires
        Plant::lifecycle_post(o, f, os, fs),
        o.age >= o.age_max,
    ensures
        f.health == 0,
{
}

/// Law: reproduction is gated strictly on maturity. A plant that is not
/// mature after its tick — its size at most 80% of its ceiling — keeps its
/// offspring buffer exactly as it was, whatever the random draws did; so an
/// immature plant never contributes a seedling.
pub proof fn lemma_immature_never_reproduces(o: Plant, f: Plant, os: BoardSection, fs: BoardSection)
    requires
        Plant::lifecycle_post(o, f, os, fs),
        !f.mature(),
    ensures
        f.offspring@ == o.offspring@,
{
    if o.health != 0 && o.age + 1 <= o.age_max && o.on_fire {
        let d = choose|d: int|
            0 <= d <= o.health_max / 10 && Plant::burn_outcome(o, f, os, fs, d);
        assert(Plant::burn_outcome(o, f, os, fs, d));
    }
}

/// The magnitude a burning plant loses in one tick: a tenth of `health_max`,
/// scaled by a uniform draw from `[0, CHANCE_SCALE)` and truncated. It never
/// exceeds a tenth of `health_max`.
pub proof fn lemma_burn_damage_bound(hm: int, roll: int)
    requires
        1 <= hm,
        0 <= roll < 1_000_000,
    ensures
        0 <= hm * roll / 10_000_000 <= hm / 10,
{
    assert(hm * roll >= 0) by (nonlinear_arith)
        requires
            hm >= 1,
            roll >= 0,
    ;
    assert(hm * roll <= hm * 1_000_000) by (nonlinear_arith)
        requires
            hm >= 1,
            roll <= 1_000_000,
    ;
    vstd::arithmetic::div_mod::lemma_div_is_ordered(hm * roll, hm * 1_000_000, 10_000_000);
    vstd::arithmetic::div_mod::lemma_div_denominator(hm * 1_000_000, 1_000_000, 10);
    vstd::arithmetic::div_mod::lemma_div_multiples_vanish(hm, 1_000_000);
    assert(hm * 1_000_000 == 1_000_000 * hm);
    assert(hm * 1_000_000 / 10_000_000 == hm / 10);
}

} // verus!
