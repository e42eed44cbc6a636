//! The player's ship: where it is, where it points, how it turns.
use vstd::prelude::*;
use crate::geom::{Rect, Vec2};
use crate::map::SpriteDraw;

verus! {

/// Degrees turned per frame while a turn key is held.
pub const TURN_STEP: i64 = 2;

/// Distance moved per frame while the forward key is held.
pub const SPEED: i64 = 4;

/// The heading after turning by `step` degrees from `angle`, in `[0, 360)`.
pub open spec fn heading_after(angle: int, step: int) -> int {
    (angle + step) % 360
}

/// The heading after `n` turns by `step` degrees from `angle`.
pub open spec fn heading_after_turns(angle: int, step: int, n: nat) -> int
    decreases n,
{
    if n == 0 {
        angle
    } else {
        heading_after(heading_after_turns(angle, step, (n - 1) as nat), step)
    }
}

/// The player's ship.
#[derive(Debug)]
pub struct Player {
    pub body: Rect,
    /// Heading in degrees; 0 points along `+y`.
    pub angle: i64,
    pub z: i8,
}

impl Player {
    /// The ship at its starting place, pointing at heading 180.
    pub fn new() -> (r: Player)
        ensures
            r.body == (Rect { pos: Vec2 { x: 277, y: 243 }, size: Vec2 { x: 66, y: 113 } }),
            r.angle == 180,
            r.z == 2,
    {
        let body = Rect::new(Vec2::new(277, 243), Vec2::new(66, 113));
        let angle: i64 = 180;
        let z: i8 = 2;
        Player { body, angle, z }
    }

    /// Turns by `step` degrees; the heading is brought back into `[0, 360)`.
    pub fn turn(&mut self, step: i64)
        requires
            -360 < step < 360,
        ensures
            final(self).angle == heading_after(old(self).angle as int, step as int),
            0 <= final(self).angle < 360,
            final(self).body == old(self).body,
            final(self).z == old(self).z,
    {
        let h = match self.angle.checked_rem_euclid(360) {
            Some(h) => h,
            None => 0,
        };
        let t = h + step;
        let r = match t.checked_rem_euclid(360) {
            Some(r) => r,
            None => 0,
        };
        proof {
            let a = self.angle as int;
            vstd::arithmetic::div_mod::lemma_fundamental_div_mod(a, 360);
            let q = a / 360;
            vstd::arithmetic::div_mod::lemma_mod_multiples_vanish(q, h + step, 360);
            assert(a + step == 360 * q + (h + step));
        }
        self.angle = r;
    }

    pub fn turn_left(&mut self)
        ensures
            final(self).angle == heading_after(old(self).angle as int, -TURN_STEP),
            final(self).body == old(self).body,
            final(self).z == old(self).z,
    {
        self.turn(-TURN_STEP);
    }

    pub fn turn_right(&mut self)
        ensures
            final(self).angle == heading_after(old(self).angle as int, TURN_STEP as int),
            final(self).body == old(self).body,
            final(self).z == old(self).z,
    {
        self.turn(TURN_STEP);
    }

    /// Moves the ship by `delta`, each coordinate saturating.
    pub fn move_by(&mut self, delta: Vec2)
        ensures
            final(self).body == old(self).body.translate_spec(delta),
            final(self).angle == old(self).angle,
            final(self).z == old(self).z,
    {
        self.body = self.body.translate(delta);
    }

    /// The ship's sprite: its body, rotated by its heading, at its depth.
    pub fn draw_player(&self) -> (r: SpriteDraw)
        ensures
            r.shape == self.body,
            r.texture@ == ship_texture(),
            r.rotation == self.angle,
            r.z == self.z,
    {
        proof {
            reveal_strlit("redShip1");
        }
        let texture = String::from_str("redShip1");
        assert(texture@ =~= ship_texture());
        SpriteDraw { shape: self.body, texture, rotation: self.angle, z: self.z }
    }
}

/// Name of the ship's sprite in the atlas.
pub open spec fn ship_texture() -> Seq<char> {
    seq!['r', 'e', 'd', 'S', 'h', 'i', 'p', '1']
}

/// Every heading reached by repeated turns of a step smaller than a full
/// circle lies in `[0, 360)`, and after `n` turns it is the start heading plus
/// `n` steps, taken modulo 360.
pub proof fn lemma_turns(angle: int, step: int, n: nat)
    requires
        n >= 1,
    ensures
        heading_after_turns(angle, step, n) == (angle + n * step) % 360,
        0 <= heading_after_turns(angle, step, n) < 360,
    decreases n,
{
    assert(heading_after_turns(angle, step, n) == heading_after(
        heading_after_turns(angle, step, (n - 1) as nat),
        step,
    ));
    if n == 1 {
        assert(heading_after_turns(angle, step, 0) == angle);
        assert(n * step == step);
    } else {
        lemma_turns(angle, step, (n - 1) as nat);
        let x = angle + (n - 1) * step;
        vstd::arithmetic::div_mod::lemma_fundamental_div_mod(x, 360);
        let q = x / 360;
        vstd::arithmetic::div_mod::lemma_mod_multiples_vanish(-q, x + step, 360);
        assert(x % 360 + step == 360 * (-q) + (x + step));
        assert(heading_after_turns(angle, step, (n - 1) as nat) == x % 360);
        assert(angle + n * step == x + step) by (nonlinear_arith)
            requires
                x == angle + (n - 1) * step,
        ;
    }
}

/// Turning left a hundred and eighty times from heading 0 is a full circle:
/// the heading comes back to 0, and no heading on the way is negative.
pub proof fn lemma_full_turn_left()
    ensures
        heading_after_turns(0, -TURN_STEP, 180) == 0,
        forall|i: nat| 1 <= i <= 180 ==> 0 <= #[trigger] heading_after_turns(0, -TURN_STEP, i) < 360,
{
    lemma_turns(0, -TURN_STEP, 180);
    assert forall|i: nat| 1 <= i <= 180 implies 0 <= #[trigger] heading_after_turns(0, -TURN_STEP, i) < 360 by {
        lemma_turns(0, -TURN_STEP, i);
    }
}

} // verus!
