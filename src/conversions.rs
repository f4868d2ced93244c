//! The rules that turn playback state into presence text.

use crate::config::{lookup_override, override_for, Config};
use crate::mpd::{PlayState, Song, SongStatus, Status, MAX_SPAN_NS, NANOS_PER_SEC};
use crate::text::{
    ascii_lower, chars_of, decimal, decimal_string, is_ascii_alnum, is_ascii_alphanumeric, join, join_strings,
    opt_view, push_char, to_ascii_lower, views,
};
use rand::distr::{Alphanumeric, SampleString};
use vstd::prelude::*;

verus! {

/// The most characters a derived slug keeps.
pub const SLUG_LEN: usize = 16;

/// What the character at `i` adds to a slug: itself in lower case if it is an
/// ASCII letter or digit; otherwise one dash for a whole run of other characters.
pub open spec fn slug_piece(s: Seq<char>, i: int) -> Seq<char> {
    if is_ascii_alnum(s[i]) {
        seq![ascii_lower(s[i])]
    } else if i > 0 && !is_ascii_alnum(s[i - 1]) {
        seq![]
    } else {
        seq!['-']
    }
}

/// The whole slug of a title, before it is cut to length.
pub open spec fn dashed(s: Seq<char>) -> Seq<char>
    decreases s.len(),
{
    if s.len() == 0 {
        seq![]
    } else {
        dashed(s.drop_last()) + slug_piece(s, s.len() - 1)
    }
}

/// The slug of a title: the override if one is set, else the first
/// `SLUG_LEN` characters of the derived one.
pub open spec fn slug_spec(title: Seq<char>, overrides: Seq<(String, String)>) -> Seq<char> {
    match override_for(overrides, title) {
        Some(s) => s,
        None => if dashed(title).len() <= SLUG_LEN {
            dashed(title)
        } else {
            dashed(title).take(SLUG_LEN as int)
        },
    }
}

/// The artists of a song, joined with commas; the album artists where the
/// song names none; nothing where both lists are empty.
pub open spec fn artist_spec(song: Song) -> Option<Seq<char>> {
    let list = if song.artists@.len() > 0 {
        song.artists@
    } else {
        song.album_artists@
    };
    if list.len() > 0 {
        Some(join(views(list), ", "@))
    } else {
        None
    }
}

/// The one-line notice of what is playing: title, artist and album.
pub open spec fn text_spec(status: SongStatus) -> Option<Seq<char>> {
    match status.song {
        None => None,
        Some(song) => match song.title {
            None => None,
            Some(title) => {
                let artist = match artist_spec(song) {
                    Some(a) => a,
                    None => "Unknown Artist"@,
                };
                let album = match song.album {
                    Some(a) => " (album: "@ + a@ + ")"@,
                    None => seq![],
                };
                Some(title@ + " - "@ + artist + album)
            },
        },
    }
}

proof fn lemma_dashed_prefix(s: Seq<char>, i: int)
    requires
        0 <= i < s.len(),
    ensures
        dashed(s.take(i + 1)) == dashed(s.take(i)) + slug_piece(s, i),
{
    let t = s.take(i + 1);
    assert(t.drop_last() =~= s.take(i));
    assert(slug_piece(t, i) == slug_piece(s, i));
}

proof fn lemma_dashed_grows(s: Seq<char>, i: int, j: int)
    requires
        0 <= i <= j <= s.len(),
    ensures
        dashed(s.take(i)).len() <= dashed(s.take(j)).len(),
        dashed(s.take(j)).take(dashed(s.take(i)).len() as int) == dashed(s.take(i)),
    decreases j - i,
{
    if i < j {
        lemma_dashed_grows(s, i, j - 1);
        lemma_dashed_prefix(s, j - 1);
        let a = dashed(s.take(i));
        let b = dashed(s.take(j - 1));
        assert((b + slug_piece(s, j - 1)).take(a.len() as int) =~= b.take(a.len() as int));
    }
}

/// The name of the cover image for a title: the override from `config` if
/// one is set; else the title in lower case, each run of characters other
/// than ASCII letters and digits made one dash, cut to `SLUG_LEN` characters.
pub fn slugify(title: &str, config: &Config) -> (r: String)
    ensures
        r@ == slug_spec(title@, config.art_overrides@),
{
    if let Some(slug) = lookup_override(&config.art_overrides, title) {
        return slug;
    }
    let cs = chars_of(title);
    let mut out = String::new();
    let mut out_len: usize = 0;
    let mut after_other = false;
    let mut i: usize = 0;
    while i < cs.len() && out_len < SLUG_LEN
        invariant
            i <= cs@.len(),
            cs@ == title@,
            out@ == dashed(title@.take(i as int)),
            out_len == out@.len(),
            out_len <= SLUG_LEN,
            after_other == (i > 0 && !is_ascii_alnum(title@[i - 1])),
        decreases cs@.len() - i,
    {
        let c = cs[i];
        proof {
            lemma_dashed_prefix(title@, i as int);
        }
        if is_ascii_alphanumeric(c) {
            after_other = false;
            push_char(&mut out, to_ascii_lower(c));
            out_len = out_len + 1;
        } else if !after_other {
            after_other = true;
            push_char(&mut out, '-');
            out_len = out_len + 1;
        }
        i = i + 1;
    }
    proof {
        lemma_dashed_grows(title@, i as int, title@.len() as int);
        assert(title@.take(title@.len() as int) =~= title@);
        if i < title@.len() {
            assert(out@.len() == SLUG_LEN);
        }
    }
    out
}

/// The artists of `song`, joined with commas; the album artists where the
/// song names none; `None` where both lists are empty.
pub fn get_artist(song: &Song) -> (r: Option<String>)
    ensures
        opt_view(r) == artist_spec(*song),
{
    let list = if song.artists.len() > 0 {
        &song.artists
    } else {
        &song.album_artists
    };
    if list.len() > 0 {
        Some(join_strings(list, ", "))
    } else {
        None
    }
}

/// A one-line notice of the current song, "title - artist (album: ...)", or
/// `None` where no song with a title is playing.
pub fn get_text(song_status: &SongStatus) -> (r: Option<String>)
    ensures
        opt_view(r) == text_spec(*song_status),
{
    let song = match &song_status.song {
        Some(s) => s,
        None => return None,
    };
    let title = match &song.title {
        Some(t) => t,
        None => return None,
    };
    let artist = match get_artist(song) {
        Some(a) => a,
        None => "Unknown Artist".to_owned(),
    };
    let mut notice = title.clone();
    notice.append(" - ");
    notice.append(artist.as_str());
    if let Some(album) = &song.album {
        notice.append(" (album: ");
        notice.append(album.as_str());
        notice.append(")");
    }
    Some(notice)
}

/// Characters in the token that makes each cover-art link unique.
pub const TOKEN_LEN: usize = 12;

pub struct Assets {
    pub large_image: Option<String>,
    pub large_text: Option<String>,
}

/// Start and end of the song, in seconds since the Unix epoch.
#[derive(Clone, Copy, Debug, PartialEq, Eq, Structural)]
pub struct Timestamps {
    pub start: Option<i64>,
    pub end: Option<i64>,
}

#[derive(Clone, Copy, Debug, PartialEq, Eq, Structural)]
pub enum ActivityKind {
    Playing,
    Listening,
}

/// The rich presence to publish for the current song.
pub struct Activity {
    pub state: Option<String>,
    pub details: Option<String>,
    pub timestamps: Option<Timestamps>,
    pub assets: Option<Assets>,
    pub kind: ActivityKind,
}

#[derive(Clone, Copy, Debug, PartialEq, Eq, Structural)]
pub enum ActivityError {
    /// The song would have started before the Unix epoch.
    StartBeforeEpoch,
}

pub struct AssetsView {
    pub large_image: Option<Seq<char>>,
    pub large_text: Option<Seq<char>>,
}

pub struct ActivityView {
    pub state: Option<Seq<char>>,
    pub details: Option<Seq<char>>,
    pub timestamps: Option<Timestamps>,
    pub assets: Option<AssetsView>,
    pub kind: ActivityKind,
}

impl View for Activity {
    type V = ActivityView;

    open spec fn view(&self) -> ActivityView {
        ActivityView {
            state: opt_view(self.state),
            details: opt_view(self.details),
            timestamps: self.timestamps,
            assets: match self.assets {
                Some(a) => Some(AssetsView { large_image: opt_view(a.large_image), large_text: opt_view(a.large_text) }),
                None => None,
            },
            kind: self.kind,
        }
    }
}

pub open spec fn result_view(r: Result<Activity, ActivityError>) -> Result<ActivityView, ActivityError> {
    match r {
        Ok(a) => Ok(a@),
        Err(e) => Err(e),
    }
}

/// A token of `TOKEN_LEN` ASCII letters and digits.
pub open spec fn token_shape(token: Seq<char>) -> bool {
    &&& token.len() == TOKEN_LEN
    &&& forall|i: int| 0 <= i < token.len() ==> is_ascii_alnum(#[trigger] token[i])
}

pub open spec fn album_line(song: Song) -> Option<Seq<char>> {
    match song.album {
        Some(a) => Some("(album: "@ + a@ + ")"@),
        None => None,
    }
}

/// The link to a song's cover art on the public endpoint.
pub open spec fn art_url(public_addr: Seq<char>, song_id: u64, token: Seq<char>) -> Seq<char> {
    public_addr + "/art/"@ + decimal(song_id) + "?"@ + token
}

/// The cover of a titled song: an uploaded image named by its slug where
/// there is one, else a link to the cover-art endpoint where one is set up.
pub open spec fn assets_spec(status: SongStatus, config: Config, token: Seq<char>) -> Option<AssetsView> {
    match status.song {
        Some(song) => match song.title {
            Some(title) => {
                let slug = slug_spec(title@, config.art_overrides@);
                if views(config.artfiles@).contains(slug) {
                    Some(AssetsView { large_image: Some(slug), large_text: album_line(song) })
                } else {
                    match config.web {
                        Some(web) => Some(
                            AssetsView {
                                large_image: Some(art_url(web.public_addr@, status.status.current_song.unwrap().1, token)),
                                large_text: album_line(song),
                            },
                        ),
                        None => None,
                    }
                }
            },
            None => None,
        },
        None => None,
    }
}

pub open spec fn details_spec(status: SongStatus) -> Option<Seq<char>> {
    match status.song {
        Some(song) => opt_view(song.title),
        None => None,
    }
}

pub open spec fn state_spec(status: SongStatus) -> Option<Seq<char>> {
    match status.song {
        Some(song) => match artist_spec(song) {
            Some(a) => Some("by "@ + a + " "@),
            None => None,
        },
        None => None,
    }
}

/// While a song plays with a known position: its start (the clock reading
/// less the time into the song) and, where its length is known, its end, in
/// whole seconds. The end wraps around as the sum of two `u64` does.
pub open spec fn timestamps_spec(status: Status, now_ns: u128) -> Result<Option<Timestamps>, ActivityError> {
    if status.state == PlayState::Playing {
        match status.elapsed_ns {
            Some(e) => if e > now_ns {
                Err(ActivityError::StartBeforeEpoch)
            } else {
                let since = ((now_ns - e) / (NANOS_PER_SEC as int)) as u64;
                Ok(
                    Some(
                        Timestamps {
                            start: Some(since as i64),
                            end: match status.duration_ns {
                                Some(d) => Some((((d as int / NANOS_PER_SEC as int) as u64).wrapping_add(since)) as i64),
                                None => None,
                            },
                        },
                    ),
                )
            },
            None => Ok(None),
        }
    } else {
        Ok(None)
    }
}

/// The presence for the current song, given the clock reading `now_ns`
/// (nanoseconds since the Unix epoch) and the link token.
pub open spec fn activity_spec(status: SongStatus, config: Config, now_ns: u128, token: Seq<char>) -> Result<
    ActivityView,
    ActivityError,
> {
    match timestamps_spec(status.status, now_ns) {
        Err(e) => Err(e),
        Ok(timestamps) => Ok(
            ActivityView {
                state: state_spec(status),
                details: details_spec(status),
                timestamps,
                assets: assets_spec(status, config, token),
                kind: ActivityKind::Listening,
            },
        ),
    }
}

/// Relies on `rand::distr::Alphanumeric` through `SampleString::sample_string`,
/// drawn from `rand::rng()`: `len` characters, each an ASCII letter or digit.
#[verifier::external_body]
fn random_token(len: usize) -> (r: String)
    ensures
        r@.len() == len,
        forall|i: int| 0 <= i < r@.len() ==> is_ascii_alnum(#[trigger] r@[i]),
{
    Alphanumeric.sample_string(&mut rand::rng(), len)
}

fn contains_string(list: &Vec<String>, s: &String) -> (r: bool)
    ensures
        r == views(list@).contains(s@),
{
    let mut i: usize = 0;
    while i < list.len()
        invariant
            i <= list@.len(),
            forall|k: int| 0 <= k < i ==> list@[k]@ != s@,
        decreases list@.len() - i,
    {
        if list[i] == *s {
            assert(views(list@)[i as int] == s@);
            return true;
        }
        i = i + 1;
    }
    proof {
        if views(list@).contains(s@) {
            let k = choose|k: int| 0 <= k < views(list@).len() && views(list@)[k] == s@;
            assert(list@[k]@ == s@);
        }
    }
    false
}

fn timestamps_of(status: &Status, now_ns: u128) -> (r: Result<Option<Timestamps>, ActivityError>)
    requires
        now_ns <= MAX_SPAN_NS,
    ensures
        r == timestamps_spec(*status, now_ns),
{
    if status.state != PlayState::Playing {
        return Ok(None);
    }
    let elapsed = match status.elapsed_ns {
        Some(e) => e,
        None => return Ok(None),
    };
    if elapsed > now_ns {
        return Err(ActivityError::StartBeforeEpoch);
    }
    assert((now_ns - elapsed) as int / NANOS_PER_SEC as int <= u64::MAX as int) by (nonlinear_arith)
        requires
            (now_ns - elapsed) as int <= MAX_SPAN_NS as int,
            NANOS_PER_SEC as int == 1000000000,
            MAX_SPAN_NS as int == 18446744073709551615999999999,
    ;
    let since = ((now_ns - elapsed) / NANOS_PER_SEC) as u64;
    let end = match status.duration_ns {
        Some(d) => Some((((d / NANOS_PER_SEC) as u64).wrapping_add(since)) as i64),
        None => None,
    };
    Ok(Some(Timestamps { start: Some(since as i64), end }))
}

/// The presence for the current song, with `token` as the link token.
/// Fails only where the song, playing, would have started before the epoch.
pub fn build_activity(song_status: &SongStatus, config: &Config, now_ns: u128, token: &str) -> (r: Result<
    Activity,
    ActivityError,
>)
    requires
        song_status.wf(),
        now_ns <= MAX_SPAN_NS,
    ensures
        result_view(r) == activity_spec(*song_status, *config, now_ns, token@),
{
    let timestamps = match timestamps_of(&song_status.status, now_ns) {
        Ok(t) => t,
        Err(e) => return Err(e),
    };
    let mut activity = Activity { state: None, details: None, timestamps, assets: None, kind: ActivityKind::Listening };
    if let Some(song) = &song_status.song {
        if let Some(title) = &song.title {
            activity.details = Some(title.clone());
            let album_line = match &song.album {
                Some(a) => {
                    let mut line = "(album: ".to_owned();
                    line.append(a.as_str());
                    line.append(")");
                    Some(line)
                },
                None => None,
            };
            let slug = slugify(title.as_str(), config);
            if contains_string(&config.artfiles, &slug) {
                activity.assets = Some(Assets { large_image: Some(slug), large_text: album_line });
            } else if let Some(web) = &config.web {
                let song_id = match song_status.status.current_song {
                    Some(current) => current.1,
                    None => 0,
                };
                let mut url = web.public_addr.clone();
                url.append("/art/");
                url.append(decimal_string(song_id).as_str());
                url.append("?");
                url.append(token);
                activity.assets = Some(Assets { large_image: Some(url), large_text: album_line });
            }
        }
        if let Some(artist) = get_artist(song) {
            let mut state = "by ".to_owned();
            state.append(artist.as_str());
            state.append(" ");
            activity.state = Some(state);
        }
    }
    Ok(activity)
}

/// The presence for the current song, given the clock reading `now_ns`
/// (nanoseconds since the Unix epoch). A cover-art link carries a fresh
/// random token; everything else follows from the arguments.
pub fn get_activity(song_status: &SongStatus, config: &Config, now_ns: u128) -> (r: Result<Activity, ActivityError>)
    requires
        song_status.wf(),
        now_ns <= MAX_SPAN_NS,
    ensures
        exists|token: Seq<char>| token_shape(token) && result_view(r) == activity_spec(*song_status, *config, now_ns, token),
{
    let token = random_token(TOKEN_LEN);
    let r = build_activity(song_status, config, now_ns, token.as_str());
    assert(token_shape(token@));
    r
}

} // verus!
