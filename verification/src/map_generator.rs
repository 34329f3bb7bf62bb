//! Procedural obstacle-course generator.
//!
//! The course is an append-only sequence of stations, each holding one
//! obstacle or a cluster, at strictly increasing horizontal positions.
//! Every station is placed so that a jump launched from the margin
//! preceding it reaches the station's required clearance height exactly at
//! the station position, at the player's velocity at that point of the map
//! (`v^2 = u^2 + 2*a*s`).
use vstd::prelude::*;
use crate::math::spec_height_disc;
use crate::math::spec_time_enter;
use crate::math::spec_displacement;
use crate::math::spec_jump_time;
use crate::math::sqrt_floor;
use crate::math::vertical_params_ok;
use crate::math::lemma_jump_time_bounds;
use crate::math::lemma_displacement_mono;
use crate::math::lemma_unreachable_above_peak;
use crate::math::lemma_reachable_below_peak;
use crate::math::isqrt;
use crate::math;
use crate::obstacles::Obstacle;
use crate::obstacles::obstacle_size;
use crate::obstacles::spec_obstacle_size;
use crate::obstacles::is_cactus;
use crate::obstacles::random_cactus;
use crate::obstacles::lemma_obstacle_size_bounds;
use crate::rng::new_rng;
use crate::rng::rand_below;
use vstd::arithmetic::div_mod::lemma_div_is_ordered;
use vstd::arithmetic::div_mod::lemma_div_pos_is_pos;

verus! {

/// Most stations a course may hold; bounds every cursor computation.
pub const MAX_STATIONS: usize = 10_000;

/// Largest cursor advance that emitting one station may cost (three skipped
/// gaps plus a placement, each at most a margin and a jump).
pub const ADV_PER_ENTRY: i64 = 150_000_000_000;

/// The cursor starts past a little initial padding.
pub const INITIAL_PADDING: i64 = 4_000;

/// One station of the course: a horizontal position, an altitude (zero for
/// ground obstacles), and the obstacles standing there.
#[derive(Debug)]
pub struct MapStation {
    pub x: i64,
    pub y: i64,
    pub obstacles: Vec<Obstacle>,
}

impl View for MapStation {
    type V = (int, int, Seq<Obstacle>);

    open spec fn view(&self) -> (int, int, Seq<Obstacle>) {
        (self.x as int, self.y as int, self.obstacles@)
    }
}

/// The player's velocity at map position `x`: `v^2 = u^2 + 2*a*x`.
pub open spec fn spec_vel(u: int, acc: int, x: int) -> int {
    sqrt_floor((u * u + 2 * acc * x) as nat) as int
}

/// Parameter ranges the generator accepts: a launch velocity and gravity
/// within the kinematics bounds, and a jump able to clear the lowest bird
/// (and therefore every cactus, all of which are lower).
pub open spec fn gen_params_ok(u: int, acc: int, g: int, uy: int) -> bool {
    &&& 1_000 <= u <= 20_000
    &&& 0 <= acc <= 2_000
    &&& vertical_params_ok(uy, g)
    &&& spec_height_disc(1_351, uy, g) >= 0
}

/// `h` clears every obstacle of the station.
pub open spec fn covers(h: int, sv: (int, int, Seq<Obstacle>)) -> bool {
    forall|i: int| 0 <= i < sv.2.len() ==> sv.1 + spec_obstacle_size(sv.2[i]).1 <= h
}

/// There is a launch point before the station and a clearance height `h`
/// covering all its obstacles such that a jump launched there — at the
/// player's velocity at that point — reaches height `h` exactly at the
/// station's position.
pub open spec fn station_reachable(u: int, acc: int, uy: int, g: int,
                                   sv: (int, int, Seq<Obstacle>)) -> bool {
    exists|launch: int, h: int|
        0 <= launch <= sv.0
        && 0 <= h <= 1_000_000
        && covers(h, sv)
        && spec_height_disc(h, uy, g) >= 0
        && sv.0 == launch + spec_displacement(
            spec_vel(u, acc, launch), acc, spec_time_enter(h, uy, g))
}

/// A single well-formed station.
pub open spec fn station_ok(u: int, acc: int, uy: int, g: int,
                            sv: (int, int, Seq<Obstacle>)) -> bool {
    &&& 0 <= sv.0
    &&& 0 <= sv.1
    &&& 1 <= sv.2.len() <= 8
    &&& station_reachable(u, acc, uy, g, sv)
}

/// Total width of a cluster's members.
pub open spec fn sum_widths(s: Seq<Obstacle>) -> int
    decreases s.len(),
{
    if s.len() == 0 {
        0
    } else {
        sum_widths(s.drop_last()) + spec_obstacle_size(s.last()).0
    }
}

/// Cursor bound after `len` stations have been emitted.
pub open spec fn spec_pos_cap(len: int) -> int {
    INITIAL_PADDING + len * ADV_PER_ENTRY
}

pub struct GameMap {
    pub map: Vec<MapStation>,
    pub pos: i64,
    pub u: i64,
    pub acc: i64,
    pub g: i64,
    pub jump_vel: i64,
    pub rng: rand::rngs::ThreadRng,
}

impl View for GameMap {
    type V = Seq<(int, int, Seq<Obstacle>)>;

    open spec fn view(&self) -> Seq<(int, int, Seq<Obstacle>)> {
        self.map@.map_values(|st: MapStation| st@)
    }
}

impl GameMap {
    pub open spec fn params_ok(self) -> bool {
        gen_params_ok(self.u as int, self.acc as int, self.g as int, self.jump_vel as int)
    }

    /// The emitted stations are well formed, at strictly increasing
    /// positions, and all lie at or before the cursor.
    pub open spec fn stations_wf(self) -> bool {
        &&& forall|i: int| 0 <= i < self@.len() ==> station_ok(
            self.u as int, self.acc as int, self.jump_vel as int, self.g as int,
            #[trigger] self@[i])
        &&& forall|i: int| 0 <= i < self@.len() - 1 ==> (#[trigger] self@[i]).0 < self@[i + 1].0
        &&& self@.len() > 0 ==> self@[self@.len() - 1].0 <= self.pos as int
    }

    pub open spec fn wf(self) -> bool {
        &&& self.params_ok()
        &&& self.stations_wf()
        &&& self@.len() <= MAX_STATIONS
        &&& INITIAL_PADDING <= self.pos
        &&& self.pos as int <= spec_pos_cap(self@.len() as int)
    }

    /// The generator's parameters, for stating that an operation leaves
    /// them unchanged.
    pub open spec fn params(self) -> (int, int, int, int) {
        (self.u as int, self.acc as int, self.g as int, self.jump_vel as int)
    }

    pub fn new(initial_x_vel: i64, x_acc: i64, gravity: i64, jump_vel: i64) -> (m: GameMap)
        requires
            gen_params_ok(initial_x_vel as int, x_acc as int, gravity as int, jump_vel as int),
        ensures
            m.wf(),
            m@.len() == 0,
            m.params() == (initial_x_vel as int, x_acc as int, gravity as int, jump_vel as int),
    {
        GameMap {
            map: Vec::new(),
            pos: INITIAL_PADDING,
            u: initial_x_vel,
            acc: x_acc,
            g: gravity,
            jump_vel,
            rng: new_rng(),
        }
    }

    /// Number of stations emitted so far.
    pub fn len(&self) -> (n: usize)
        ensures
            n == self@.len(),
    {
        self.map.len()
    }

    /// The player's velocity at map position `x`.
    fn vel_at_pos(&self, x: i64) -> (v: i64)
        requires
            self.params_ok(),
            0 <= x <= 2_000_000_000_000_000,
        ensures
            v == spec_vel(self.u as int, self.acc as int, x as int),
            1_000 <= v <= 3_000_000_000,
    {
        proof {
            assert(1_000_000 <= self.u * self.u <= 400_000_000) by (nonlinear_arith)
                requires 1_000 <= self.u <= 20_000i64;
            assert(0 <= 2 * self.acc * x <= 8_000_000_000_000_000_000) by (nonlinear_arith)
                requires 0 <= self.acc <= 2_000i64 && 0 <= x <= 2_000_000_000_000_000i64;
        }
        let d: i64 = self.u * self.u + 2 * self.acc * x;
        let r: u64 = isqrt(d as u64);
        proof {
            assert(d as u64 as nat == (self.u * self.u + 2 * self.acc * x) as nat);
            assert(r as int >= 1_000) by (nonlinear_arith)
                requires (r as int + 1) * (r as int + 1) > d as int
                    && d as int >= 1_000_000 && r as int >= 0;
            assert(r as int <= 3_000_000_000) by (nonlinear_arith)
                requires (r as int) * (r as int) <= d as int
                    && d as int <= 8_000_000_400_000_000_000 && r as int >= 0;
        }
        r as i64
    }

    /// Draws the random gap margin put before the next station: at least a
    /// fifth of the jump distance `jd`, at most the whole of it.
    fn draw_margin(rng: &mut rand::rngs::ThreadRng, jd: i64, spread_div: i64) -> (m: i64)
        requires
            10 <= jd <= 18_000_100_000,
            spread_div == 2 || spread_div == 5,
        ensures
            2 <= m <= jd,
    {
        let r = rand_below(rng, 1_000) as i64;
        let base = jd / 5;
        let spread = jd / spread_div;
        proof {
            lemma_div_is_ordered(10, jd as int, 5);
            lemma_div_pos_is_pos(jd as int, spread_div as int);
            vstd::arithmetic::div_mod::lemma_div_is_ordered_by_denominator(
                jd as int, 2, spread_div as int);
            assert(0 <= r * spread <= 1_000 * spread) by (nonlinear_arith)
                requires 0 <= r < 1_000 && spread >= 0;
            lemma_div_pos_is_pos(r as int * spread as int, 1_000);
            lemma_div_is_ordered(r as int * spread as int, 1_000 * spread as int, 1_000);
            vstd::arithmetic::div_mod::lemma_div_multiples_vanish(spread as int, 1_000);
            vstd::arithmetic::div_mod::lemma_fundamental_div_mod(jd as int, 2);
            vstd::arithmetic::div_mod::lemma_mod_bound(jd as int, 2);
            vstd::arithmetic::div_mod::lemma_div_is_ordered_by_denominator(jd as int, 2, 5);
        }
        base + r * spread / 1_000
    }

    /// Packs random cacti into the clearance window `[x1, x2]`: the first
    /// always stands, more follow while they fit, stopping early at random
    /// for rhythm variation.
    fn gen_obs_group(&mut self, x1: i64, x2: i64) -> (group: Vec<Obstacle>)
        requires
            0 <= x1 <= x2 <= 20_000_000_000,
        ensures
            1 <= group@.len() <= 8,
            forall|i: int| 0 <= i < group@.len() ==> is_cactus(#[trigger] group@[i]),
            // members beyond the first were only added while the cluster
            // still fit the clearance window
            group@.len() > 1 ==> x1 + sum_widths(group@) <= x2,
            final(self).map == old(self).map,
            final(self).pos == old(self).pos,
            final(self).u == old(self).u,
            final(self).acc == old(self).acc,
            final(self).g == old(self).g,
            final(self).jump_vel == old(self).jump_vel,
    {
        let mut group: Vec<Obstacle> = Vec::new();
        let first = random_cactus(&mut self.rng);
        proof {
            lemma_obstacle_size_bounds(first);
        }
        group.push(first);
        let mut curr: i64 = x1 + obstacle_size(&first).0;
        proof {
            assert(group@ =~= seq![first]);
            assert(group@.drop_last() =~= Seq::<Obstacle>::empty());
            assert(sum_widths(Seq::<Obstacle>::empty()) == 0);
            assert(group@.last() == first);
            assert(sum_widths(group@)
                == sum_widths(group@.drop_last()) + spec_obstacle_size(first).0);
            assert(sum_widths(group@.drop_last()) == 0);
            assert(curr == x1 + sum_widths(group@));
        }
        let mut budget: u32 = 7;
        while budget > 0 && curr < x2
            invariant
                1 <= group@.len() <= 8 - budget,
                budget <= 7,
                x1 >= 0,
                x2 <= 20_000_000_000,
                curr <= x2 + 26_000,
                curr == x1 + sum_widths(group@),
                group@.len() > 1 ==> curr <= x2,
                forall|i: int| 0 <= i < group@.len() ==> is_cactus(#[trigger] group@[i]),
                self.map == old(self).map,
                self.pos == old(self).pos,
                self.u == old(self).u,
                self.acc == old(self).acc,
                self.g == old(self).g,
                self.jump_vel == old(self).jump_vel,
            decreases budget,
        {
            let cactus = random_cactus(&mut self.rng);
            let ghost old_group = group@;
            let width = obstacle_size(&cactus).0;
            proof {
                lemma_obstacle_size_bounds(cactus);
            }
            if curr + width > x2 {
                budget = 0;
            } else {
                curr = curr + width;
                group.push(cactus);
                proof {
                    assert(group@.drop_last() =~= old_group);
                    assert(group@.last() == cactus);
                    assert(sum_widths(group@)
                        == sum_widths(group@.drop_last()) + spec_obstacle_size(cactus).0);
                    assert(sum_widths(group@.drop_last()) == sum_widths(old_group));
                    assert(curr == x1 + sum_widths(group@));
                }
                if rand_below(&mut self.rng, 1_000) >= 400 {
                    budget = 0;
                } else {
                    budget = budget - 1;
                }
            }
        }
        group
    }

    /// Emits one ground station: a single random cactus, or — with
    /// probability `p_grouping` (in thousandths) — a cluster packed into
    /// the clearance window of the tallest cactus.
    pub fn add_random_cactus(&mut self, p_grouping: u32)
        requires
            old(self).params_ok(),
            old(self).stations_wf(),
            old(self)@.len() < MAX_STATIONS,
            INITIAL_PADDING <= old(self).pos,
            old(self).pos as int <= spec_pos_cap(MAX_STATIONS as int),
            p_grouping <= 1_000,
        ensures
            final(self).params() == old(self).params(),
            final(self).stations_wf(),
            final(self)@.len() == old(self)@.len() + 1,
            final(self)@.subrange(0, old(self)@.len() as int) == old(self)@,
            final(self)@.last().1 == 0,
            forall|i: int| 0 <= i < final(self)@.last().2.len()
                ==> is_cactus(#[trigger] final(self)@.last().2[i]),
            old(self).pos + 2 <= final(self).pos <= old(self).pos + 37_000_000_000,
    {
        let ghost old_view = self@;
        let v0 = self.vel_at_pos(self.pos);
        let jd0 = math::jump_distance_c_acc(v0, self.acc, self.jump_vel, self.g);
        proof {
            lemma_jump_time_bounds(self.jump_vel as int, self.g as int);
            math::lemma_displacement_lower(
                v0 as int, self.acc as int,
                spec_jump_time(self.jump_vel as int, self.g as int));
        }
        let margin = Self::draw_margin(&mut self.rng, jd0, 2);
        let launch = self.pos + margin;
        let v1 = self.vel_at_pos(launch);
        let grouping_draw = rand_below(&mut self.rng, 1_000);
        let is_grouping = grouping_draw < p_grouping;

        let h: i64;
        let group: Vec<Obstacle>;
        let x_enter: i64;
        proof {
            assert(spec_height_disc(1_064, self.jump_vel as int, self.g as int) >= 0)
                by (nonlinear_arith)
                requires
                    (self.g as int) < 0,
                    spec_height_disc(1_351, self.jump_vel as int, self.g as int) >= 0,
                    spec_height_disc(1_351, self.jump_vel as int, self.g as int)
                        == (self.jump_vel as int) * (self.jump_vel as int)
                            + 2 * (self.g as int) * 1_351,
                    spec_height_disc(1_064, self.jump_vel as int, self.g as int)
                        == (self.jump_vel as int) * (self.jump_vel as int)
                            + 2 * (self.g as int) * 1_064;
        }
        if is_grouping {
            h = 1_064;
            let window = math::x_above_jump_height_c_acc(
                v1, self.acc, h, self.jump_vel, self.g);
            let w = window.unwrap();
            proof {
                lemma_displacement_mono(
                    v1 as int, self.acc as int, 0,
                    spec_jump_time(self.jump_vel as int, self.g as int));
            }
            group = self.gen_obs_group(w.0, w.1);
            x_enter = w.0;
        } else {
            let cactus = random_cactus(&mut self.rng);
            proof {
                lemma_obstacle_size_bounds(cactus);
            }
            h = obstacle_size(&cactus).1;
            proof {
                assert(spec_height_disc(h as int, self.jump_vel as int, self.g as int) >= 0)
                    by (nonlinear_arith)
                    requires
                        h as int <= 1_064,
                        (self.g as int) < 0,
                        spec_height_disc(1_064, self.jump_vel as int, self.g as int) >= 0,
                        spec_height_disc(1_064, self.jump_vel as int, self.g as int)
                            == (self.jump_vel as int) * (self.jump_vel as int)
                                + 2 * (self.g as int) * 1_064,
                        spec_height_disc(h as int, self.jump_vel as int, self.g as int)
                            == (self.jump_vel as int) * (self.jump_vel as int)
                                + 2 * (self.g as int) * (h as int);
            }
            let window = math::x_above_jump_height_c_acc(
                v1, self.acc, h, self.jump_vel, self.g);
            let w = window.unwrap();
            proof {
                lemma_displacement_mono(
                    v1 as int, self.acc as int, 0,
                    spec_jump_time(self.jump_vel as int, self.g as int));
            }
            let mut single: Vec<Obstacle> = Vec::new();
            single.push(cactus);
            group = single;
            x_enter = w.0;
        }

        let station = MapStation { x: launch + x_enter, y: 0, obstacles: group };
        let ghost stv = station@;
        self.map.push(station);
        let jd1 = math::jump_distance_c_acc(v1, self.acc, self.jump_vel, self.g);
        self.pos = launch + jd1;

        proof {
            assert(self@ =~= old_view.push(stv));
            assert(self@.subrange(0, old_view.len() as int) =~= old_view);
            let u = self.u as int;
            let acc = self.acc as int;
            let uy = self.jump_vel as int;
            let g = self.g as int;
            assert(covers(h as int, stv)) by {
                assert forall|i: int| 0 <= i < stv.2.len()
                    implies stv.1 + spec_obstacle_size(stv.2[i]).1 <= h as int by {
                    lemma_obstacle_size_bounds(stv.2[i]);
                }
            }
            assert(station_reachable(u, acc, uy, g, stv)) by {
                let launch_w = launch as int;
                let h_w = h as int;
                assert(0 <= launch_w <= stv.0);
                assert(0 <= h_w <= 1_000_000);
                assert(spec_height_disc(h_w, uy, g) >= 0);
                assert(stv.0 == launch_w + spec_displacement(
                    spec_vel(u, acc, launch_w), acc, spec_time_enter(h_w, uy, g)));
            }
            assert(station_ok(u, acc, uy, g, stv));
            assert forall|i: int| 0 <= i < self@.len()
                implies station_ok(u, acc, uy, g, #[trigger] self@[i]) by {
                if i < old_view.len() {
                    assert(self@[i] == old_view[i]);
                }
            }
            assert forall|i: int| 0 <= i < self@.len() - 1
                implies (#[trigger] self@[i]).0 < self@[i + 1].0 by {
                if i < old_view.len() - 1 {
                    assert(self@[i] == old_view[i] && self@[i + 1] == old_view[i + 1]);
                }
            }
        }
    }

    /// Emits one flying station: a bird at a random altitude, clamped so
    /// that its clearance height stays within reach of the jump.
    pub fn add_bird(&mut self)
        requires
            old(self).params_ok(),
            old(self).stations_wf(),
            old(self)@.len() < MAX_STATIONS,
            INITIAL_PADDING <= old(self).pos,
            old(self).pos as int <= spec_pos_cap(MAX_STATIONS as int),
        ensures
            final(self).params() == old(self).params(),
            final(self).stations_wf(),
            final(self)@.len() == old(self)@.len() + 1,
            final(self)@.subrange(0, old(self)@.len() as int) == old(self)@,
            final(self)@.last().1 >= 500,
            final(self)@.last().2 =~= seq![Obstacle::Bird1],
            old(self).pos + 2 <= final(self).pos <= old(self).pos + 37_000_000_000,
    {
        let ghost old_view = self@;
        let v0 = self.vel_at_pos(self.pos);
        let jd0 = math::jump_distance_c_acc(v0, self.acc, self.jump_vel, self.g);
        proof {
            lemma_jump_time_bounds(self.jump_vel as int, self.g as int);
            math::lemma_displacement_lower(
                v0 as int, self.acc as int,
                spec_jump_time(self.jump_vel as int, self.g as int));
        }
        let margin = Self::draw_margin(&mut self.rng, jd0, 5);
        let launch = self.pos + margin;
        let v1 = self.vel_at_pos(launch);

        let raw_y: i64 = 500 + rand_below(&mut self.rng, 667) as i64;
        proof {
            assert(0 <= (self.jump_vel as int) * (self.jump_vel as int) <= 900_000_000)
                by (nonlinear_arith)
                requires 1_000 <= self.jump_vel as int <= 30_000;
        }
        let peak: i64 = self.jump_vel * self.jump_vel / (2 * (-self.g));
        proof {
            lemma_div_pos_is_pos(
                (self.jump_vel as int) * (self.jump_vel as int), 2 * (-self.g as int));
            lemma_div_is_ordered(
                (self.jump_vel as int) * (self.jump_vel as int), 900_000_000,
                2 * (-self.g as int));
            vstd::arithmetic::div_mod::lemma_div_is_ordered_by_denominator(
                900_000_000, 20_000, 2 * (-self.g as int));
            if peak < 1_351 {
                lemma_unreachable_above_peak(1_351, self.jump_vel as int, self.g as int);
            }
        }
        let bird_y: i64 = if raw_y > peak - 851 { peak - 851 } else { raw_y };
        let h: i64 = 851 + bird_y;
        proof {
            lemma_reachable_below_peak(h as int, self.jump_vel as int, self.g as int);
        }
        let window = math::x_above_jump_height_c_acc(v1, self.acc, h, self.jump_vel, self.g);
        let w = window.unwrap();
        proof {
            lemma_displacement_mono(
                v1 as int, self.acc as int, 0,
                spec_jump_time(self.jump_vel as int, self.g as int));
        }
        let x_enter = w.0;

        let mut obstacles: Vec<Obstacle> = Vec::new();
        obstacles.push(Obstacle::Bird1);
        let station = MapStation { x: launch + x_enter, y: bird_y, obstacles };
        let ghost stv = station@;
        self.map.push(station);
        let jd1 = math::jump_distance_c_acc(v1, self.acc, self.jump_vel, self.g);
        self.pos = launch + jd1;

        proof {
            assert(self@ =~= old_view.push(stv));
            assert(self@.subrange(0, old_view.len() as int) =~= old_view);
            let u = self.u as int;
            let acc = self.acc as int;
            let uy = self.jump_vel as int;
            let g = self.g as int;
            assert(covers(h as int, stv)) by {
                assert(stv.2 =~= seq![Obstacle::Bird1]);
                assert(spec_obstacle_size(Obstacle::Bird1).1 == 851);
            }
            assert(station_reachable(u, acc, uy, g, stv)) by {
                let launch_w = launch as int;
                let h_w = h as int;
                assert(0 <= launch_w <= stv.0);
                assert(0 <= h_w <= 1_000_000);
                assert(spec_height_disc(h_w, uy, g) >= 0);
                assert(stv.0 == launch_w + spec_displacement(
                    spec_vel(u, acc, launch_w), acc, spec_time_enter(h_w, uy, g)));
            }
            assert(station_ok(u, acc, uy, g, stv));
            assert forall|i: int| 0 <= i < self@.len()
                implies station_ok(u, acc, uy, g, #[trigger] self@[i]) by {
                if i < old_view.len() {
                    assert(self@[i] == old_view[i]);
                }
            }
            assert forall|i: int| 0 <= i < self@.len() - 1
                implies (#[trigger] self@[i]).0 < self@[i + 1].0 by {
                if i < old_view.len() - 1 {
                    assert(self@[i] == old_view[i] && self@[i + 1] == old_view[i + 1]);
                }
            }
        }
    }

    /// Extends the course by exactly `len` stations.  Before each station
    /// the generator may skip up to three extra gaps at random (a quarter
    /// chance each), then places either a cactus station or a bird.
    #[verifier::rlimit(100)]
    pub fn gen_map(&mut self, len: usize)
        requires
            old(self).wf(),
            old(self)@.len() + len <= MAX_STATIONS,
        ensures
            final(self).wf(),
            final(self).params() == old(self).params(),
            final(self)@.len() == old(self)@.len() + len,
            final(self)@.subrange(0, old(self)@.len() as int) == old(self)@,
            final(self).pos >= old(self).pos,
            len > 0 ==> final(self).pos > old(self).pos,
    {
        let ghost base = self@;
        let mut k: usize = 0;
        while k < len
            invariant
                k <= len,
                base.len() + len <= MAX_STATIONS,
                self.params_ok(),
                self.stations_wf(),
                self@.len() == base.len() + k,
                self@.subrange(0, base.len() as int) == base,
                INITIAL_PADDING <= self.pos,
                self.pos as int <= spec_pos_cap(self@.len() as int),
                self.params() == old(self).params(),
                old(self).pos <= self.pos,
                k > 0 ==> old(self).pos < self.pos,
            decreases len - k,
        {
            let ghost before_entry = self@;
            let mut skips: u32 = 0;
            let mut place_now = rand_below(&mut self.rng, 1_000) >= 250;
            while !place_now && skips < 3
                invariant
                    skips <= 3,
                    self.params_ok(),
                    self.stations_wf(),
                    self@ == before_entry,
                    self@.len() == base.len() + k,
                    base.len() + len <= MAX_STATIONS,
                    k < len,
                    INITIAL_PADDING <= self.pos,
                    self.pos as int <= spec_pos_cap(self@.len() as int)
                        + skips * 36_100_000_000,
                    self.params() == old(self).params(),
                    old(self).pos <= self.pos,
                    k > 0 ==> old(self).pos < self.pos,
                decreases 3 - skips,
            {
                let v0 = self.vel_at_pos(self.pos);
                let jd = math::jump_distance_c_acc(v0, self.acc, self.jump_vel, self.g);
                proof {
                    lemma_jump_time_bounds(self.jump_vel as int, self.g as int);
                    math::lemma_displacement_lower(
                        v0 as int, self.acc as int,
                        spec_jump_time(self.jump_vel as int, self.g as int));
                }
                let margin = Self::draw_margin(&mut self.rng, jd, 2);
                self.pos = self.pos + margin + jd;
                skips = skips + 1;
                place_now = rand_below(&mut self.rng, 1_000) >= 250;
            }
            let ghost before_place = self@;
            if rand_below(&mut self.rng, 1_000) >= 500 {
                self.add_random_cactus(500);
            } else {
                self.add_bird();
            }
            k = k + 1;
            proof {
                assert(self@.subrange(0, base.len() as int) =~= base) by {
                    assert(before_place.subrange(0, base.len() as int) == base);
                    assert(self@.subrange(0, before_place.len() as int) == before_place);
                    assert forall|i: int| 0 <= i < base.len()
                        implies self@[i] == base[i] by {
                        assert(self@.subrange(0, before_place.len() as int)[i] == self@[i]);
                        assert(before_place.subrange(0, base.len() as int)[i]
                            == before_place[i]);
                    }
                }
            }
        }
    }

    /// Copies one station.
    fn copy_station(st: &MapStation) -> (c: MapStation)
        ensures
            c@ == st@,
    {
        let mut obstacles: Vec<Obstacle> = Vec::new();
        let mut j: usize = 0;
        while j < st.obstacles.len()
            invariant
                j <= st.obstacles.len(),
                obstacles@ == st.obstacles@.subrange(0, j as int),
            decreases st.obstacles.len() - j,
        {
            obstacles.push(st.obstacles[j]);
            proof {
                assert(obstacles@ =~= st.obstacles@.subrange(0, j as int + 1));
            }
            j = j + 1;
        }
        proof {
            assert(st.obstacles@.subrange(0, st.obstacles@.len() as int) =~= st.obstacles@);
        }
        MapStation { x: st.x, y: st.y, obstacles }
    }

    /// Copies the stations `from..=to`.
    fn copy_range(&self, from: usize, to: usize) -> (page: Vec<MapStation>)
        requires
            from <= to < self@.len(),
            to < MAX_STATIONS,
        ensures
            page@.len() == to + 1 - from,
            forall|k: int| 0 <= k < page@.len()
                ==> (#[trigger] page@[k])@ == self@[from + k],
    {
        let mut page: Vec<MapStation> = Vec::new();
        let mut i: usize = from;
        while i <= to
            invariant
                from <= i <= to + 1,
                to < self@.len(),
                to < MAX_STATIONS,
                page@.len() == i - from,
                forall|k: int| 0 <= k < page@.len()
                    ==> (#[trigger] page@[k])@ == self@[from + k],
            decreases to + 1 - i,
        {
            let st = Self::copy_station(&self.map[i]);
            proof {
                assert(self.map@[i as int]@ == self@[i as int]);
            }
            page.push(st);
            i = i + 1;
        }
        page
    }

    /// Returns the contiguous slice `from..=to` of the course, first
    /// extending generation by the deficit if `to` lies beyond what has
    /// been emitted.  Previously emitted stations are never regenerated.
    pub fn get_map(&mut self, from: usize, to: usize) -> (page: Vec<MapStation>)
        requires
            old(self).wf(),
            from <= to < MAX_STATIONS,
        ensures
            final(self).wf(),
            final(self).params() == old(self).params(),
            final(self)@.subrange(0, old(self)@.len() as int) == old(self)@,
            final(self)@.len() == if old(self)@.len() > to { old(self)@.len() as int } else { to + 1 },
            page@.len() == to + 1 - from,
            forall|k: int| 0 <= k < page@.len()
                ==> (#[trigger] page@[k])@ == final(self)@[from + k],
    {
        if to >= self.map.len() {
            let need = to + 1 - self.map.len();
            self.gen_map(need);
        } else {
            proof {
                assert(self@.subrange(0, self@.len() as int) =~= self@);
            }
        }
        self.copy_range(from, to)
    }
}

/// The course is append-only, so reading a range twice gives identical
/// results: if `later` extends `earlier` (as every `get_map` call
/// guarantees of the emitted course), any slice that already lay within
/// `earlier` is unchanged in `later`.  In particular a second read with
/// the same bounds, or a read with an extended upper bound, returns a
/// sequence whose prefix matches the first read.
pub proof fn lemma_course_slice_stable(
    earlier: Seq<(int, int, Seq<Obstacle>)>,
    later: Seq<(int, int, Seq<Obstacle>)>,
    from: int,
    to: int,
)
    requires
        earlier.len() <= later.len(),
        later.subrange(0, earlier.len() as int) == earlier,
        0 <= from <= to < earlier.len(),
    ensures
        later.subrange(from, to + 1) == earlier.subrange(from, to + 1),
{
    assert forall|k: int| 0 <= k < to + 1 - from
        implies #[trigger] later.subrange(from, to + 1)[k]
            == earlier.subrange(from, to + 1)[k] by {
        assert(later.subrange(0, earlier.len() as int)[from + k] == later[from + k]);
    }
    assert(later.subrange(from, to + 1) =~= earlier.subrange(from, to + 1));
}

} // verus!
