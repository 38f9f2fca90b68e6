//! Detection of the target game from the TES4 header of a plugin.
use vstd::prelude::*;
use crate::types::GameId;
use crate::esp::header::{GenericHeader, RecordHeaderData};

verus! {

/// The game whose plugins carry TES4 form version `v`, if any.
pub open spec fn spec_game_of_form_version(v: u16) -> Option<GameId> {
    if v == 131 {
        Some(GameId::Fallout4)
    } else if 40 <= v <= 43 {
        Some(GameId::Skyrim)
    } else if 2 <= v <= 15 {
        Some(GameId::FalloutNV)
    } else if v == 44 {
        Some(GameId::SkyrimSE)
    } else if 182 <= v <= 201 {
        Some(GameId::Fallout76)
    } else if 552 <= v <= 576 {
        Some(GameId::Starfield)
    } else {
        None
    }
}

/// Maps a TES4 form version to a game; values outside the known ranges give `None`.
pub fn game_from_form_version(f_version: u16) -> (r: Option<GameId>)
    ensures
        r == spec_game_of_form_version(f_version),
{
    if f_version == 131 {
        Some(GameId::Fallout4)
    } else if 40 <= f_version && f_version <= 43 {
        Some(GameId::Skyrim)
    } else if 2 <= f_version && f_version <= 15 {
        Some(GameId::FalloutNV)
    } else if f_version == 44 {
        Some(GameId::SkyrimSE)
    } else if 182 <= f_version && f_version <= 201 {
        Some(GameId::Fallout76)
    } else if 552 <= f_version && f_version <= 576 {
        Some(GameId::Starfield)
    } else {
        None
    }
}

/// Number of bytes that [`peek_form_version`] reads: the 8-byte generic
/// header and the 16-byte record header data.
pub const PEEK_LEN: usize = 24;

/// The form version of a plugin whose first bytes are `b`: `None` unless
/// they begin a TES4 record whose headers (24 bytes) are complete.
pub fn peek_form_version(b: &[u8]) -> (r: Option<u16>)
    ensures
        r is Some <==> (b@.len() >= 24 && b@.take(4) == crate::esp::header::sig_tes4()),
        r matches Some(v) ==> v == crate::bytes::le_u16(b@, 20),
{
    let generic = match GenericHeader::from_bytes(b) {
        Some(g) => g,
        None => return None,
    };
    if !generic.is_tes4() {
        return None;
    }
    match RecordHeaderData::from_bytes(b, 8) {
        Some(h) => Some(h.f_version),
        None => None,
    }
}

/// How the resolved game was chosen.
#[derive(Clone, Copy, Debug, PartialEq, Eq)]
pub enum GameSource {
    Requested,
    Detected,
    Fallback,
}

impl GameSource {
    pub fn as_str(&self) -> (r: &'static str)
        ensures
            *self == GameSource::Requested ==> r@ == "requested"@,
            *self == GameSource::Detected ==> r@ == "detected"@,
            *self == GameSource::Fallback ==> r@ == "fallback"@,
    {
        match self {
            GameSource::Requested => "requested",
            GameSource::Detected => "detected",
            GameSource::Fallback => "fallback",
        }
    }
}

/// Resolves the game: a recognised requested alias first, then the detected
/// game, then the fallback, which stays marked as such.
pub fn resolve_game_id(requested: Option<&str>, detected: Option<GameId>, fallback: GameId) -> (r: (GameId, GameSource))
    ensures
        ({
            let req = match requested {
                Some(s) => crate::types::game_alias(s@),
                None => None,
            };
            if req is Some {
                r == (req->0, GameSource::Requested)
            } else if detected is Some {
                r == (detected->0, GameSource::Detected)
            } else {
                r == (fallback, GameSource::Fallback)
            }
        }),
{
    if let Some(name) = requested {
        if let Some(g) = GameId::from_alias(name) {
            return (g, GameSource::Requested);
        }
    }
    if let Some(g) = detected {
        return (g, GameSource::Detected);
    }
    (fallback, GameSource::Fallback)
}

} // verus!
