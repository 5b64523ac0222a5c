//! Data model: playback status, the display-ready player snapshot, the
//! reduced discovery entry, and the raw per-session observation that the
//! bus layer hands in on every refresh.

use vstd::prelude::*;

verus! {

/// Playback state of one media session.
#[derive(Clone, Copy, Debug, PartialEq, Eq, Structural)]
pub enum PlaybackStatus {
    Playing,
    Paused,
    Stopped,
}

/// Relevance rank of a status: playing sessions outrank paused ones,
/// paused ones outrank stopped ones.
pub open spec fn status_priority(s: PlaybackStatus) -> int {
    match s {
        PlaybackStatus::Playing => 0,
        PlaybackStatus::Paused => 1,
        PlaybackStatus::Stopped => 2,
    }
}

pub fn status_priority_exec(s: PlaybackStatus) -> (r: u32)
    ensures
        r == status_priority(s),
{
    match s {
        PlaybackStatus::Playing => 0,
        PlaybackStatus::Paused => 1,
        PlaybackStatus::Stopped => 2,
    }
}

/// Spec-level image of a [`PlayerInfo`].
pub struct PlayerInfoView {
    pub title: Seq<char>,
    pub artist: Seq<char>,
    pub status: PlaybackStatus,
    pub volume_percent: u32,
    pub art_url: Option<Seq<char>>,
    pub bus_name: Seq<char>,
    pub identity: Seq<char>,
    pub can_control_volume: bool,
}

/// The fully resolved, display-ready snapshot of one session.  Volume is
/// an integer percentage (`50` stands for half volume).
pub struct PlayerInfo {
    pub title: String,
    pub artist: String,
    pub status: PlaybackStatus,
    pub volume_percent: u32,
    pub art_url: Option<String>,
    pub bus_name: String,
    pub identity: String,
    pub can_control_volume: bool,
}

pub open spec fn view_of_opt_string(s: Option<String>) -> Option<Seq<char>> {
    match s {
        Some(v) => Some(v@),
        None => None,
    }
}

impl View for PlayerInfo {
    type V = PlayerInfoView;

    open spec fn view(&self) -> PlayerInfoView {
        PlayerInfoView {
            title: self.title@,
            artist: self.artist@,
            status: self.status,
            volume_percent: self.volume_percent,
            art_url: view_of_opt_string(self.art_url),
            bus_name: self.bus_name@,
            identity: self.identity@,
            can_control_volume: self.can_control_volume,
        }
    }
}

/// Default volume percentage shown when no source reports one.
pub const DEFAULT_VOLUME_PERCENT: u32 = 50;

/// The placeholder snapshot shown when no player is selected.
pub open spec fn default_player_info() -> PlayerInfoView {
    PlayerInfoView {
        title: "No music playing"@,
        artist: Seq::<char>::empty(),
        status: PlaybackStatus::Stopped,
        volume_percent: DEFAULT_VOLUME_PERCENT,
        art_url: None,
        bus_name: Seq::<char>::empty(),
        identity: Seq::<char>::empty(),
        can_control_volume: true,
    }
}

/// What one press of play/pause shows immediately, before the session
/// reports back: playing turns paused, anything else turns playing.
pub fn toggle_status(s: PlaybackStatus) -> (r: PlaybackStatus)
    ensures
        s == PlaybackStatus::Playing ==> r == PlaybackStatus::Paused,
        s != PlaybackStatus::Playing ==> r == PlaybackStatus::Playing,
{
    match s {
        PlaybackStatus::Playing => PlaybackStatus::Paused,
        PlaybackStatus::Paused | PlaybackStatus::Stopped => PlaybackStatus::Playing,
    }
}

impl Default for PlayerInfo {
    /// The placeholder snapshot used when no player is selected.
    fn default() -> (r: Self)
        ensures
            r@ == default_player_info(),
    {
        PlayerInfo {
            title: "No music playing".to_owned(),
            artist: String::new(),
            status: PlaybackStatus::Stopped,
            volume_percent: DEFAULT_VOLUME_PERCENT,
            art_url: None,
            bus_name: String::new(),
            identity: String::new(),
            can_control_volume: true,
        }
    }
}

/// Spec-level image of a [`DiscoveredPlayer`].
pub struct DiscoveredPlayerView {
    pub identity: Seq<char>,
    pub is_active: bool,
}

/// A reduced view of one session for the selection UI, keyed by identity.
pub struct DiscoveredPlayer {
    pub identity: String,
    pub is_active: bool,
}

impl View for DiscoveredPlayer {
    type V = DiscoveredPlayerView;

    open spec fn view(&self) -> DiscoveredPlayerView {
        DiscoveredPlayerView { identity: self.identity@, is_active: self.is_active }
    }
}

impl Clone for DiscoveredPlayer {
    fn clone(&self) -> (r: Self)
        ensures
            r@ == self@,
    {
        DiscoveredPlayer { identity: self.identity.clone(), is_active: self.is_active }
    }
}

/// Spec-level image of a [`SessionObservation`].
pub struct SessionObservationView {
    pub bus_name: Seq<char>,
    pub identity: Seq<char>,
    pub title: Option<Seq<char>>,
    pub artists: Option<Seq<Seq<char>>>,
    pub status: Option<PlaybackStatus>,
    pub volume_percent: Option<u32>,
    pub art_url: Option<Seq<char>>,
}

/// Everything the bus layer observed about one session during a refresh.
/// A `None` field means the underlying query failed; the extractor
/// substitutes defaults.
pub struct SessionObservation {
    pub bus_name: String,
    pub identity: String,
    pub title: Option<String>,
    pub artists: Option<Vec<String>>,
    pub status: Option<PlaybackStatus>,
    pub volume_percent: Option<u32>,
    pub art_url: Option<String>,
}

pub open spec fn view_of_string_seq(s: Seq<String>) -> Seq<Seq<char>> {
    s.map_values(|v: String| v@)
}

impl View for SessionObservation {
    type V = SessionObservationView;

    open spec fn view(&self) -> SessionObservationView {
        SessionObservationView {
            bus_name: self.bus_name@,
            identity: self.identity@,
            title: view_of_opt_string(self.title),
            artists: match self.artists {
                Some(v) => Some(view_of_string_seq(v@)),
                None => None,
            },
            status: self.status,
            volume_percent: self.volume_percent,
            art_url: view_of_opt_string(self.art_url),
        }
    }
}

/// Copy of an optional string, preserving the view.
pub fn clone_opt_string(s: &Option<String>) -> (r: Option<String>)
    ensures
        view_of_opt_string(r) == view_of_opt_string(*s),
{
    match s {
        Some(v) => Some(v.clone()),
        None => None,
    }
}

impl Clone for SessionObservation {
    fn clone(&self) -> (r: Self)
        ensures
            r@ == self@,
    {
        let artists: Option<Vec<String>> = match &self.artists {
            Some(v) => {
                let mut out: Vec<String> = Vec::new();
                let n = v.len();
                let mut i: usize = 0;
                while i < n
                    invariant
                        n == v@.len(),
                        i <= n,
                        out@.len() == i,
                        forall|j: int| 0 <= j < i ==> out@[j]@ == v@[j]@,
                    decreases n - i,
                {
                    out.push(v[i].clone());
                    i = i + 1;
                }
                proof {
                    assert(view_of_string_seq(out@) =~= view_of_string_seq(v@));
                }
                Some(out)
            },
            None => None,
        };
        let r = SessionObservation {
            bus_name: self.bus_name.clone(),
            identity: self.identity.clone(),
            title: clone_opt_string(&self.title),
            artists,
            status: self.status,
            volume_percent: self.volume_percent,
            art_url: clone_opt_string(&self.art_url),
        };
        r
    }
}

} // verus!
