//! The phase that waits for the atlas and the level's text.
use vstd::prelude::*;
use crate::level::{ParseError, parse_level};
use crate::map::{TileMap, TileMapView, map_wf};
use crate::state::StateTransition;

verus! {

/// Whether a loading frame starts the game: the atlas is ready, and the
/// level's text is ready and parses.
pub open spec fn starts_game(atlas_ready: bool, level_text: Option<Seq<char>>) -> bool {
    atlas_ready && (level_text matches Some(t) && parse_level(t) is Ok)
}

/// The loading phase; it keeps no state of its own.
#[derive(Debug, PartialEq, Eq, Structural)]
pub struct LoadingState;

impl LoadingState {
    pub fn new() -> (r: LoadingState)
        ensures
            r == LoadingState,
    {
        LoadingState
    }

    /// One loading frame. Where the level's text is ready it is parsed, and a
    /// text that does not parse is the error. Where it parses and the atlas is
    /// ready as well, the game starts with the parsed map; otherwise nothing
    /// changes.
    pub fn update(&mut self, atlas_ready: bool, level_text: Option<&String>) -> (r: Result<StateTransition, ParseError>)
        ensures
            *final(self) == *old(self),
            level_text is None ==> r matches Ok(StateTransition::NoTransition),
            level_text matches Some(t) ==> match parse_level(t@) {
                Err(e) => r == Err::<StateTransition, ParseError>(e),
                Ok(mv) => if atlas_ready {
                    r matches Ok(StateTransition::StartGameTransition(m)) && m@ == mv && map_wf(m@)
                } else {
                    r matches Ok(StateTransition::NoTransition)
                },
            },
    {
        match level_text {
            None => Ok(StateTransition::NoTransition),
            Some(t) => {
                let mut text = t.clone();
                match TileMap::from_string(&mut text) {
                    Err(e) => Err(e),
                    Ok(m) => {
                        if atlas_ready {
                            Ok(StateTransition::StartGameTransition(m))
                        } else {
                            Ok(StateTransition::NoTransition)
                        }
                    },
                }
            },
        }
    }

    /// Events are ignored while loading.
    pub fn event(&mut self) -> (r: StateTransition)
        ensures
            r is NoTransition,
            *final(self) == *old(self),
    {
        StateTransition::NoTransition
    }
}

} // verus!
