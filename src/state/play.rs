//! The phase in which the player flies over the level.
use vstd::prelude::*;
use crate::components::{Player, heading_after, TURN_STEP};
use crate::geom::{Rect, Vec2};
use crate::map::{TileMap, SpriteDraw, map_wf, visible_indices_spec};
use crate::state::StateTransition;

verus! {

/// The keys held during a frame.
#[derive(Clone, Copy, Debug, PartialEq, Eq, Structural)]
pub struct Controls {
    pub forward: bool,
    pub turn_left: bool,
    pub turn_right: bool,
}

/// What the playing phase draws: the visible tiles, then the player on top.
#[derive(Debug)]
pub struct PlayFrame {
    pub tiles: Vec<SpriteDraw>,
    pub player: SpriteDraw,
}

/// `f` is what the playing phase `s` draws: the sprites of the tiles that its
/// view shows, in the order of `visible_indices_spec`, and the player's sprite.
pub open spec fn play_frame_of(s: PlayState, f: PlayFrame) -> bool {
    &&& f.tiles@.len() == visible_indices_spec(s.map@, s.view).len()
    &&& forall|k: int|
        0 <= k < f.tiles@.len() ==> {
            let t = s.map@.tiles[#[trigger] visible_indices_spec(s.map@, s.view)[k]];
            &&& f.tiles@[k].shape == t.shape
            &&& f.tiles@[k].texture@ == t.texture
            &&& f.tiles@[k].rotation == t.rotation
            &&& f.tiles@[k].z == t.z
        }
    &&& f.player.shape == s.player.body
    &&& f.player.rotation == s.player.angle
    &&& f.player.z == s.player.z
    &&& f.player.texture@ == crate::components::ship_texture()
}

/// The playing phase: the player, the view that follows it, and the level.
#[derive(Debug)]
pub struct PlayState {
    pub player: Player,
    pub view: Rect,
    pub map: TileMap,
}

/// The heading after a frame with the given turn keys held: left first, then right.
pub open spec fn heading_after_keys(angle: i64, keys: Controls) -> i64 {
    let a = if keys.turn_left {
        heading_after(angle as int, -TURN_STEP) as i64
    } else {
        angle
    };
    if keys.turn_right {
        heading_after(a as int, TURN_STEP as int) as i64
    } else {
        a
    }
}

impl PlayState {
    /// The phase after one frame: with `forward` held the player and the view
    /// both move by `step`; the heading turns by the held turn keys.
    pub open spec fn after_frame(self, keys: Controls, step: Vec2) -> PlayState {
        PlayState {
            player: Player {
                body: if keys.forward {
                    self.player.body.translate_spec(step)
                } else {
                    self.player.body
                },
                angle: heading_after_keys(self.player.angle, keys),
                z: self.player.z,
            },
            view: if keys.forward {
                self.view.translate_spec(step)
            } else {
                self.view
            },
            map: self.map,
        }
    }

    /// The player at its start, a 600 by 600 view at the origin, an empty map.
    pub fn new() -> (r: PlayState)
        ensures
            r.player.body == (Rect { pos: Vec2 { x: 277, y: 243 }, size: Vec2 { x: 66, y: 113 } }),
            r.player.angle == 180,
            r.player.z == 2,
            r.view == (Rect { pos: Vec2 { x: 0, y: 0 }, size: Vec2 { x: 600, y: 600 } }),
            r.map@.tiles.len() == 0,
            map_wf(r.map@),
    {
        PlayState {
            player: Player::new(),
            view: Rect::new_sized(Vec2::new(600, 600)),
            map: TileMap::new(),
        }
    }

    /// Installs the level's map.
    pub fn update_map(&mut self, map: TileMap)
        ensures
            final(self).map == map,
            final(self).player == old(self).player,
            final(self).view == old(self).view,
    {
        self.map = map;
    }

    /// Moves the player by `delta` and the view by the same displacement.
    pub fn update_position(&mut self, delta: Vec2)
        ensures
            final(self).player.body == old(self).player.body.translate_spec(delta),
            final(self).view == old(self).view.translate_spec(delta),
            final(self).player.angle == old(self).player.angle,
            final(self).player.z == old(self).player.z,
            final(self).map == old(self).map,
    {
        self.player.move_by(delta);
        self.view = self.view.translate(delta);
    }

    /// One playing frame; `step` is the displacement of one step forward at
    /// the player's heading. The game never leaves this phase.
    pub fn update(&mut self, keys: Controls, step: Vec2) -> (r: StateTransition)
        ensures
            r is NoTransition,
            *final(self) == old(self).after_frame(keys, step),
    {
        if keys.forward {
            self.update_position(step);
        }
        if keys.turn_left {
            self.player.turn_left();
        }
        if keys.turn_right {
            self.player.turn_right();
        }
        StateTransition::NoTransition
    }

    /// The visible tiles and the player's sprite.
    pub fn draw(&self) -> (r: PlayFrame)
        requires
            map_wf(self.map@),
        ensures
            play_frame_of(*self, r),
    {
        let tiles = self.map.draw_map(&self.view);
        let player = self.player.draw_player();
        PlayFrame { tiles, player }
    }

    /// Events are ignored while playing.
    pub fn event(&mut self) -> (r: StateTransition)
        ensures
            r is NoTransition,
            *final(self) == *old(self),
    {
        StateTransition::NoTransition
    }
}

} // verus!
