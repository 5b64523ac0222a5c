//! Display-state rules: which tab the popup shows, which panel icon the
//! current playback state calls for, and which players the all-players
//! view lists.

use vstd::prelude::*;

use crate::aggregate::views_of;
use crate::player::{PlaybackStatus, PlayerInfo, PlayerInfoView};

verus! {

/// The popup's active tab.
#[derive(Clone, Copy, Debug, PartialEq, Eq, Structural)]
pub enum PopupTab {
    Controls,
    Settings,
}

/// The panel icon: an inviting play button, or a pause button while
/// something is playing.
#[derive(Clone, Copy, Debug, PartialEq, Eq, Structural)]
pub enum AppIcon {
    Playing,
    Paused,
}

impl AppIcon {
    /// The theme icon name.
    pub fn to_str(&self) -> (r: &'static str)
        ensures
            *self is Playing ==> r@ == "media-playback-start-symbolic"@,
            *self is Paused ==> r@ == "media-playback-pause-symbolic"@,
    {
        match self {
            AppIcon::Playing => "media-playback-start-symbolic",
            AppIcon::Paused => "media-playback-pause-symbolic",
        }
    }
}

/// Some listed player is currently playing.
pub open spec fn some_playing(players: Seq<PlayerInfoView>) -> bool {
    exists|i: int| 0 <= i < players.len() && players[i].status == PlaybackStatus::Playing
}

/// Whether any player of the list is currently playing.
pub fn any_playing(players: &Vec<PlayerInfo>) -> (r: bool)
    ensures
        r == some_playing(views_of(players@)),
{
    let ghost pv = views_of(players@);
    let n = players.len();
    let mut i: usize = 0;
    while i < n
        invariant
            n == players@.len(),
            pv == views_of(players@),
            i <= n,
            forall|j: int| 0 <= j < i ==> pv[j].status != PlaybackStatus::Playing,
        decreases n - i,
    {
        let is_playing = match players[i].status {
            PlaybackStatus::Playing => true,
            _ => false,
        };
        if is_playing {
            proof {
                assert(pv[i as int].status == PlaybackStatus::Playing);
            }
            return true;
        }
        i = i + 1;
    }
    false
}

/// The panel icon for one session's status: show pause while playing,
/// play otherwise.
pub fn icon_for_status(s: PlaybackStatus) -> (r: AppIcon)
    ensures
        s == PlaybackStatus::Playing ==> r == AppIcon::Paused,
        s != PlaybackStatus::Playing ==> r == AppIcon::Playing,
{
    match s {
        PlaybackStatus::Playing => AppIcon::Paused,
        PlaybackStatus::Paused | PlaybackStatus::Stopped => AppIcon::Playing,
    }
}

/// The panel icon in multi-player mode: show pause when any player is
/// playing, play when nothing is.
pub fn icon_for_all(any_playing: bool) -> (r: AppIcon)
    ensures
        any_playing ==> r == AppIcon::Paused,
        !any_playing ==> r == AppIcon::Playing,
{
    if any_playing {
        AppIcon::Paused
    } else {
        AppIcon::Playing
    }
}

/// What the all-players view lists: with hide-inactive on, only the
/// players that are not stopped; otherwise everything.
pub open spec fn shown_players(s: Seq<PlayerInfoView>, hide_inactive: bool) -> Seq<
    PlayerInfoView,
> {
    if hide_inactive {
        s.filter(|p: PlayerInfoView| p.status != PlaybackStatus::Stopped)
    } else {
        s
    }
}

/// Drop the stopped players when hide-inactive is on; keep playing and
/// paused ones visible.
pub fn filter_inactive(players: Vec<PlayerInfo>, hide_inactive: bool) -> (r: Vec<PlayerInfo>)
    ensures
        views_of(r@) == shown_players(views_of(players@), hide_inactive),
{
    if !hide_inactive {
        return players;
    }
    let ghost orig = views_of(players@);
    let mut rest = players;
    let mut out: Vec<PlayerInfo> = Vec::new();
    let ghost mut k: int = 0;
    proof {
        reveal(Seq::filter);
        assert(views_of(out@) =~= shown_players(orig.take(0), true));
    }
    while rest.len() > 0
        invariant
            0 <= k <= orig.len(),
            views_of(rest@) =~= orig.skip(k),
            views_of(out@) == shown_players(orig.take(k), true),
        decreases rest@.len(),
    {
        let ghost rest0 = views_of(rest@);
        let x = rest.remove(0);
        proof {
            assert(x@ == rest0[0]);
            assert(views_of(rest@) =~= rest0.remove(0));
            assert(rest0.remove(0) =~= orig.skip(k + 1));
            assert(x@ == orig[k]);
            assert(orig.take(k + 1).drop_last() =~= orig.take(k));
            assert(orig.take(k + 1).last() == orig[k]);
        }
        let keep = match x.status {
            PlaybackStatus::Stopped => false,
            _ => true,
        };
        let ghost out0 = views_of(out@);
        if keep {
            out.push(x);
            proof {
                reveal(Seq::filter);
                assert(orig[k].status != PlaybackStatus::Stopped);
                assert(views_of(out@) =~= out0.push(orig[k]));
                assert(shown_players(orig.take(k + 1), true) =~= shown_players(
                    orig.take(k),
                    true,
                ).push(orig[k]));
            }
        } else {
            proof {
                reveal(Seq::filter);
                assert(orig[k].status == PlaybackStatus::Stopped);
                assert(shown_players(orig.take(k + 1), true) =~= shown_players(
                    orig.take(k),
                    true,
                ));
            }
        }
        proof {
            k = k + 1;
        }
    }
    proof {
        assert(orig.take(k) =~= orig);
    }
    out
}

} // verus!
