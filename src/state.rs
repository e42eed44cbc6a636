//! The game's phases and the manager that switches between them.
use vstd::prelude::*;
use crate::level::{ParseError, parse_level};
use crate::map::{TileMap, map_wf, SpriteDraw};
use crate::state::loading::{LoadingState, starts_game};
use crate::state::play::{Controls, PlayFrame, PlayState, play_frame_of};
use crate::geom::Vec2;

pub mod loading;
pub mod play;

verus! {

/// The phase that is current.
#[derive(Clone, Copy, Debug, PartialEq, Eq, Structural)]
pub enum CurrentState {
    Loading,
    Playing,
}

/// What a phase asks of the manager after a frame or an event.
#[derive(Debug)]
pub enum StateTransition {
    NoTransition,
    /// Switch to the phase, carrying nothing.
    StateLessTransition(CurrentState),
    /// Install the map in the playing phase and switch to it.
    StartGameTransition(TileMap),
}

/// What the renderer draws for the current phase.
#[derive(Debug)]
pub enum Frame {
    /// The static loading indicator.
    Loading,
    Playing(PlayFrame),
}

/// The phase after one frame of the manager, given whether the atlas was
/// ready and the level text, if it was ready.
pub open spec fn next_phase(cur: CurrentState, atlas_ready: bool, level_text: Option<Seq<char>>) -> CurrentState {
    if cur == CurrentState::Loading && starts_game(atlas_ready, level_text) {
        CurrentState::Playing
    } else {
        cur
    }
}

/// The phase after a run of frames from `cur`.
pub open spec fn phase_after(cur: CurrentState, frames: Seq<(bool, Option<Seq<char>>)>) -> CurrentState
    decreases frames.len(),
{
    if frames.len() == 0 {
        cur
    } else {
        next_phase(phase_after(cur, frames.drop_last()), frames.last().0, frames.last().1)
    }
}

/// Owns one instance of each phase and knows which one is current.
#[derive(Debug)]
pub struct StateManager {
    pub loading: LoadingState,
    pub play: PlayState,
    pub current_state: CurrentState,
}

impl StateManager {
    /// What the manager keeps true: the playing phase's map can be indexed.
    pub open spec fn wf(&self) -> bool {
        map_wf(self.play.map@)
    }

    /// Both phases fresh, `Loading` current.
    pub fn new() -> (r: StateManager)
        ensures
            r.current_state == CurrentState::Loading,
            r.play.map@.tiles.len() == 0,
            r.wf(),
    {
        StateManager {
            loading: LoadingState::new(),
            play: PlayState::new(),
            current_state: CurrentState::Loading,
        }
    }

    /// The tag of the current phase.
    pub fn current_state(&self) -> (r: CurrentState)
        ensures
            r == self.current_state,
    {
        self.current_state
    }

    /// Applies a transition: nothing for `NoTransition`; a new tag for
    /// `StateLessTransition`; for `StartGameTransition`, the map moves into the
    /// playing phase, which becomes current.
    pub fn transition_state(&mut self, transition: StateTransition)
        requires
            transition matches StateTransition::StartGameTransition(m) ==> map_wf(m@),
            old(self).wf(),
        ensures
            final(self).wf(),
            final(self).loading == old(self).loading,
            final(self).play.player == old(self).play.player,
            final(self).play.view == old(self).play.view,
            match transition {
                StateTransition::NoTransition => *final(self) == *old(self),
                StateTransition::StateLessTransition(s) => final(self).current_state == s
                    && final(self).play == old(self).play,
                StateTransition::StartGameTransition(m) => final(self).current_state
                    == CurrentState::Playing && final(self).play.map == m,
            },
    {
        match transition {
            StateTransition::NoTransition => {},
            StateTransition::StateLessTransition(state) => {
                self.current_state = state;
            },
            StateTransition::StartGameTransition(map) => {
                self.play.update_map(map);
                self.current_state = CurrentState::Playing;
            },
        }
    }

    /// One frame: the current phase advances and its transition is applied.
    /// While loading, `atlas_ready` says whether the atlas has loaded and
    /// `level_text` holds the level's text once it has; a text that does not
    /// parse is returned as the error, with nothing changed. While playing,
    /// `keys` are the held keys and `forward_step` the displacement of one
    /// step forward at the player's heading.
    pub fn update(&mut self, atlas_ready: bool, level_text: Option<&String>, keys: Controls, forward_step: Vec2) -> (r: Result<(), ParseError>)
        requires
            old(self).wf(),
        ensures
            final(self).wf(),
            match r {
                Ok(()) => final(self).current_state == next_phase(
                    old(self).current_state,
                    atlas_ready,
                    match level_text {
                        Some(t) => Some(t@),
                        None => None,
                    },
                ),
                Err(e) => old(self).current_state == CurrentState::Loading && *final(self)
                    == *old(self) && (level_text matches Some(t) && parse_level(t@) == Err::<
                    crate::map::TileMapView,
                    ParseError,
                >(e)),
            },
            old(self).current_state == CurrentState::Playing ==> r is Ok && final(self).play
                == old(self).play.after_frame(keys, forward_step),
            old(self).current_state == CurrentState::Loading ==> final(self).play.player == old(
                self,
            ).play.player && final(self).play.view == old(self).play.view,
            old(self).current_state == CurrentState::Loading && final(self).current_state
                == CurrentState::Playing ==> (level_text matches Some(t) && parse_level(t@)
                == Ok::<crate::map::TileMapView, ParseError>(final(self).play.map@)),
    {
        match self.current_state {
            CurrentState::Loading => {
                match self.loading.update(atlas_ready, level_text) {
                    Ok(t) => {
                        self.transition_state(t);
                        Ok(())
                    },
                    Err(e) => Err(e),
                }
            },
            CurrentState::Playing => {
                let t = self.play.update(keys, forward_step);
                self.transition_state(t);
                Ok(())
            },
        }
    }

    /// A discrete input event: handed to the current phase, whose transition
    /// is applied. Neither phase reacts to events.
    pub fn event(&mut self)
        requires
            old(self).wf(),
        ensures
            final(self).wf(),
            *final(self) == *old(self),
    {
        let t = match self.current_state {
            CurrentState::Loading => self.loading.event(),
            CurrentState::Playing => self.play.event(),
        };
        self.transition_state(t);
    }

    /// What to draw for the current phase.
    pub fn draw(&self) -> (r: Frame)
        requires
            self.wf(),
        ensures
            self.current_state == CurrentState::Loading ==> r is Loading,
            self.current_state == CurrentState::Playing ==> (r matches Frame::Playing(f)
                && play_frame_of(self.play, f)),
    {
        match self.current_state {
            CurrentState::Loading => Frame::Loading,
            CurrentState::Playing => Frame::Playing(self.play.draw()),
        }
    }
}

/// The game starts on the first frame in which the atlas is ready and the
/// level's text is ready and parses, and not before: from `Loading`, the
/// phase after the first `n` frames is `Playing` exactly when one of them was
/// such a frame; so the switch happens at frame `j` exactly when frame `j` is
/// the first such frame.
pub proof fn lemma_readiness_join(frames: Seq<(bool, Option<Seq<char>>)>, n: nat)
    requires
        n <= frames.len(),
    ensures
        phase_after(CurrentState::Loading, frames.take(n as int)) == CurrentState::Playing <==> exists|
            j: int,
        |
            0 <= j < n && #[trigger] starts_game(frames[j].0, frames[j].1),
        n < frames.len() ==> (phase_after(CurrentState::Loading, frames.take(n as int))
            == CurrentState::Loading && phase_after(CurrentState::Loading, frames.take(n as int + 1))
            == CurrentState::Playing <==> starts_game(frames[n as int].0, frames[n as int].1) && forall|
            i: int,
        |
            0 <= i < n ==> !#[trigger] starts_game(frames[i].0, frames[i].1)),
    decreases n,
{
    if n > 0 {
        lemma_readiness_join(frames, (n - 1) as nat);
        assert(frames.take(n as int).drop_last() =~= frames.take(n - 1));
        assert(frames.take(n as int).last() == frames[n - 1]);
        if phase_after(CurrentState::Loading, frames.take(n - 1)) == CurrentState::Playing {
            let j = choose|j: int| 0 <= j < n - 1 && #[trigger] starts_game(frames[j].0, frames[j].1);
            assert(0 <= j < n && starts_game(frames[j].0, frames[j].1));
        }
    }
    if n < frames.len() {
        assert(frames.take(n as int + 1).drop_last() =~= frames.take(n as int));
        assert(frames.take(n as int + 1).last() == frames[n as int]);
    }
}

} // verus!
