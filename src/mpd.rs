//! What the library reads of the music player's state.

use vstd::prelude::*;

verus! {

/// The player's answer code for "no such song".
pub const NO_EXIST_CODE: u64 = 50;

/// The longest span a clock reading or a song time can have, in
/// nanoseconds: `u64::MAX` whole seconds and a fraction.
pub const MAX_SPAN_NS: u128 = 18446744073709551615999999999;

pub const NANOS_PER_SEC: u128 = 1000000000;

/// The tags of a song that the presence text uses.
#[derive(Clone, Debug)]
pub struct Song {
    pub title: Option<String>,
    pub album: Option<String>,
    pub artists: Vec<String>,
    pub album_artists: Vec<String>,
}

#[derive(Clone, Copy, Debug, PartialEq, Eq, Structural)]
pub enum PlayState {
    Stopped,
    Playing,
    Paused,
}

#[derive(Clone, Debug)]
pub struct Status {
    pub state: PlayState,
    /// Position in the queue and id of the current song.
    pub current_song: Option<(u64, u64)>,
    /// Time into the current song, in nanoseconds.
    pub elapsed_ns: Option<u128>,
    /// Length of the current song, in nanoseconds.
    pub duration_ns: Option<u128>,
}

/// The player's status with the current song's tags.
#[derive(Clone, Debug)]
pub struct SongStatus {
    pub song: Option<Song>,
    pub status: Status,
}

impl SongStatus {
    /// A song is only known when the status names a current one, and the
    /// times fit the range of a duration.
    pub open spec fn wf(&self) -> bool {
        &&& self.song is Some ==> self.status.current_song is Some
        &&& self.status.elapsed_ns matches Some(e) ==> e <= MAX_SPAN_NS
        &&& self.status.duration_ns matches Some(d) ==> d <= MAX_SPAN_NS
    }
}

} // verus!
