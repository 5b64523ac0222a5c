//! Media session registry, snapshot extractor, and volume-resolution
//! chain.  The controller holds the per-refresh state: the identity-keyed
//! discovery map, the bus-keyed session map, and the selected session for
//! single-player mode.  Bus traffic itself is the caller's concern: each
//! refresh hands in plain [`SessionObservation`] values.

use vstd::prelude::*;
use vstd::string::StringExecFns;
use vstd::utf8::encode_utf8;

use crate::aggregate::{aggregate, merged_view, sorted_by_identity, views_of};
use crate::audio::{clamp_percent, find_match, AudioController, AudioSinkInputView, VolumeWrite};
use crate::player::{
    DiscoveredPlayer, DiscoveredPlayerView, PlaybackStatus, PlayerInfo, PlayerInfoView,
    SessionObservation, SessionObservationView,
};
use crate::text::str_eq;

verus! {

/// Spec-level image of an optional mixer adapter.
pub open spec fn mixer_view(m: Option<&AudioController>) -> Option<Seq<AudioSinkInputView>> {
    match m {
        Some(a) => Some(a@),
        None => None,
    }
}

/// The strings joined with a separator between consecutive parts.
pub open spec fn join_with(parts: Seq<Seq<char>>, sep: Seq<char>) -> Seq<char>
    decreases parts.len(),
{
    if parts.len() == 0 {
        Seq::empty()
    } else if parts.len() == 1 {
        parts[0]
    } else {
        join_with(parts.drop_last(), sep) + sep + parts.last()
    }
}

/// Join a string list with `", "`, as a display artist line.
fn join_artists(parts: &Vec<String>) -> (r: String)
    ensures
        r@ == join_with(crate::player::view_of_string_seq(parts@), ", "@),
{
    let ghost pv = crate::player::view_of_string_seq(parts@);
    let mut r = String::new();
    let n = parts.len();
    let mut i: usize = 0;
    while i < n
        invariant
            n == parts@.len(),
            pv == crate::player::view_of_string_seq(parts@),
            i <= n,
            r@ == join_with(pv.take(i as int), ", "@),
        decreases n - i,
    {
        proof {
            assert(pv.take(i + 1).drop_last() =~= pv.take(i as int));
            assert(pv.take(i + 1).last() == pv[i as int]);
        }
        if i > 0 {
            r.append(", ");
        }
        r.append(parts[i].as_str());
        i = i + 1;
    }
    proof {
        assert(pv.take(n as int) =~= pv);
    }
    r
}

/// What the extractor produces for one observed session: every missing
/// field falls back to a default, and a fuzzy mixer match overrides the
/// native volume unconditionally.
pub open spec fn extract_spec(
    o: SessionObservationView,
    mixer: Option<Seq<AudioSinkInputView>>,
) -> PlayerInfoView {
    PlayerInfoView {
        title: match o.title {
            Some(t) => t,
            None => "Unknown"@,
        },
        artist: match o.artists {
            Some(a) => join_with(a, ", "@),
            None => "Unknown Artist"@,
        },
        status: match o.status {
            Some(s) => s,
            None => PlaybackStatus::Stopped,
        },
        volume_percent: extract_volume(o, mixer),
        art_url: o.art_url,
        bus_name: o.bus_name,
        identity: o.identity,
        can_control_volume: true,
    }
}

/// The volume shown for one session: the matching mixer stream's value
/// when there is one, else the native report, else the default.
pub open spec fn extract_volume(
    o: SessionObservationView,
    mixer: Option<Seq<AudioSinkInputView>>,
) -> u32 {
    let native = match o.volume_percent {
        Some(v) => v,
        None => crate::player::DEFAULT_VOLUME_PERCENT,
    };
    match mixer {
        Some(recs) => {
            let m = find_match(recs, encode_utf8(o.identity));
            if m >= 0 {
                recs[m].volume_percent
            } else {
                native
            }
        },
        None => native,
    }
}

/// The extractor over a whole session list.
pub open spec fn extract_all(
    sessions: Seq<SessionObservationView>,
    mixer: Option<Seq<AudioSinkInputView>>,
) -> Seq<PlayerInfoView> {
    sessions.map_values(|o: SessionObservationView| extract_spec(o, mixer))
}

/// Build the display snapshot of one observed session.  Never fails:
/// every missing field becomes its default, so the caller always has a
/// renderable value.
pub fn extract_player_info(obs: &SessionObservation, mixer: Option<&AudioController>) -> (r:
    PlayerInfo)
    ensures
        r@ == extract_spec(obs@, mixer_view(mixer)),
{
    let title = match &obs.title {
        Some(t) => t.clone(),
        None => "Unknown".to_owned(),
    };
    let artist = match &obs.artists {
        Some(a) => join_artists(a),
        None => "Unknown Artist".to_owned(),
    };
    let status = match obs.status {
        Some(s) => s,
        None => PlaybackStatus::Stopped,
    };
    let native = match obs.volume_percent {
        Some(v) => v,
        None => crate::player::DEFAULT_VOLUME_PERCENT,
    };
    let volume_percent = match mixer {
        Some(ac) => match ac.find_sink_input_by_name(obs.identity.as_str()) {
            Some(rec) => rec.volume_percent,
            None => native,
        },
        None => native,
    };
    PlayerInfo {
        title,
        artist,
        status,
        volume_percent,
        art_url: crate::player::clone_opt_string(&obs.art_url),
        bus_name: obs.bus_name.clone(),
        identity: obs.identity.clone(),
        can_control_volume: true,
    }
}

/// The discovery entry derived from one observation: the identity, and
/// whether the session is actively playing.
pub open spec fn discovered_of(o: SessionObservationView) -> DiscoveredPlayerView {
    DiscoveredPlayerView {
        identity: o.identity,
        is_active: o.status == Some(PlaybackStatus::Playing),
    }
}

/// First position carrying this identity, or `-1`.
pub open spec fn find_ident(s: Seq<DiscoveredPlayerView>, ident: Seq<char>) -> int
    decreases s.len(),
{
    if s.len() == 0 {
        -1
    } else if s[0].identity == ident {
        0
    } else {
        let r = find_ident(s.drop_first(), ident);
        if r == -1 {
            -1
        } else {
            1 + r
        }
    }
}

pub proof fn lemma_find_ident(s: Seq<DiscoveredPlayerView>, ident: Seq<char>)
    ensures
        find_ident(s, ident) == -1 || 0 <= find_ident(s, ident) < s.len(),
        find_ident(s, ident) >= 0 ==> s[find_ident(s, ident)].identity == ident,
        forall|j: int|
            0 <= j < s.len() && (j < find_ident(s, ident) || find_ident(s, ident) == -1)
                ==> s[j].identity != ident,
    decreases s.len(),
{
    if s.len() > 0 && s[0].identity != ident {
        lemma_find_ident(s.drop_first(), ident);
        assert(forall|j: int| 1 <= j < s.len() ==> s[j] == s.drop_first()[j - 1]);
    }
}

/// The identity-keyed discovery map built from a session list:
/// last write wins on identity collisions.
pub open spec fn discovery_fold(obs: Seq<SessionObservationView>) -> Seq<DiscoveredPlayerView>
    decreases obs.len(),
{
    if obs.len() == 0 {
        Seq::empty()
    } else {
        let prev = discovery_fold(obs.drop_last());
        let d = discovered_of(obs.last());
        let i = find_ident(prev, d.identity);
        if i >= 0 {
            prev.update(i, d)
        } else {
            prev.push(d)
        }
    }
}

/// First position carrying this bus name, or `-1`.
pub open spec fn find_bus(s: Seq<SessionObservationView>, bus: Seq<char>) -> int
    decreases s.len(),
{
    if s.len() == 0 {
        -1
    } else if s[0].bus_name == bus {
        0
    } else {
        let r = find_bus(s.drop_first(), bus);
        if r == -1 {
            -1
        } else {
            1 + r
        }
    }
}

pub proof fn lemma_find_bus(s: Seq<SessionObservationView>, bus: Seq<char>)
    ensures
        find_bus(s, bus) == -1 || 0 <= find_bus(s, bus) < s.len(),
        find_bus(s, bus) >= 0 ==> s[find_bus(s, bus)].bus_name == bus,
        forall|j: int|
            0 <= j < s.len() && (j < find_bus(s, bus) || find_bus(s, bus) == -1) ==> s[j].bus_name
                != bus,
    decreases s.len(),
{
    if s.len() > 0 && s[0].bus_name != bus {
        lemma_find_bus(s.drop_first(), bus);
        assert(forall|j: int| 1 <= j < s.len() ==> s[j] == s.drop_first()[j - 1]);
    }
}

/// The bus-keyed session map built from a session list: last write wins
/// on bus-name collisions.
pub open spec fn sessions_fold(obs: Seq<SessionObservationView>) -> Seq<SessionObservationView>
    decreases obs.len(),
{
    if obs.len() == 0 {
        Seq::empty()
    } else {
        let prev = sessions_fold(obs.drop_last());
        let o = obs.last();
        let i = find_bus(prev, o.bus_name);
        if i >= 0 {
            prev.update(i, o)
        } else {
            prev.push(o)
        }
    }
}

/// First observation carrying this identity, or `-1`.
pub open spec fn find_obs_ident(s: Seq<SessionObservationView>, ident: Seq<char>) -> int
    decreases s.len(),
{
    if s.len() == 0 {
        -1
    } else if s[0].identity == ident {
        0
    } else {
        let r = find_obs_ident(s.drop_first(), ident);
        if r == -1 {
            -1
        } else {
            1 + r
        }
    }
}

pub proof fn lemma_find_obs_ident(s: Seq<SessionObservationView>, ident: Seq<char>)
    ensures
        find_obs_ident(s, ident) == -1 || 0 <= find_obs_ident(s, ident) < s.len(),
        find_obs_ident(s, ident) >= 0 ==> s[find_obs_ident(s, ident)].identity == ident,
        forall|j: int|
            0 <= j < s.len() && (j < find_obs_ident(s, ident) || find_obs_ident(s, ident) == -1)
                ==> s[j].identity != ident,
    decreases s.len(),
{
    if s.len() > 0 && s[0].identity != ident {
        lemma_find_obs_ident(s.drop_first(), ident);
        assert(forall|j: int| 1 <= j < s.len() ==> s[j] == s.drop_first()[j - 1]);
    }
}

/// The mixer fallback of a volume write: look the session up by bus
/// name, fuzzy-match its identity against the mixer streams, and clamp
/// the target.  `None` where any link of the chain is missing.
pub open spec fn volume_fallback_plan(
    sessions: Seq<SessionObservationView>,
    bus: Seq<char>,
    mixer: Option<Seq<AudioSinkInputView>>,
    target_percent: u32,
) -> Option<(u32, u32)> {
    let si = find_bus(sessions, bus);
    if si < 0 {
        None
    } else {
        match mixer {
            Some(recs) => {
                let m = find_match(recs, encode_utf8(sessions[si].identity));
                if m >= 0 {
                    Some((recs[m].index, clamp_percent(target_percent)))
                } else {
                    None
                }
            },
            None => None,
        }
    }
}

/// The whole volume-write chain: nothing left to do after a successful
/// native call, the mixer fallback otherwise.
pub open spec fn set_volume_plan(
    sessions: Seq<SessionObservationView>,
    bus: Seq<char>,
    native_set_ok: bool,
    mixer: Option<Seq<AudioSinkInputView>>,
    target_percent: u32,
) -> Option<(u32, u32)> {
    if native_set_ok {
        None
    } else {
        volume_fallback_plan(sessions, bus, mixer, target_percent)
    }
}

/// The silent no-op law: with a failing native call and no matching
/// mixer stream (or no session under that bus name, or no mixer at
/// all), the chain issues no command — so a caller that maps "no
/// command" to success can never report an error for such a session.
pub proof fn lemma_set_volume_silent_noop(
    sessions: Seq<SessionObservationView>,
    bus: Seq<char>,
    mixer: Option<Seq<AudioSinkInputView>>,
    target_percent: u32,
)
    requires
        match mixer {
            Some(recs) => find_bus(sessions, bus) >= 0 ==> find_match(
                recs,
                encode_utf8(sessions[find_bus(sessions, bus)].identity),
            ) == -1,
            None => true,
        },
    ensures
        set_volume_plan(sessions, bus, false, mixer, target_percent) is None,
{
}

/// Spec-level image of a [`MusicController`].
pub struct MusicControllerView {
    pub selected: Option<SessionObservationView>,
    pub sessions: Seq<SessionObservationView>,
    pub discovered: Seq<DiscoveredPlayerView>,
}

/// The registry and controller state: rebuilt maps of the current
/// discovery pass, and the selected session for single-player mode.
pub struct MusicController {
    selected: Option<SessionObservation>,
    sessions: Vec<SessionObservation>,
    discovered: Vec<DiscoveredPlayer>,
}

pub open spec fn view_of_opt_obs(o: Option<SessionObservation>) -> Option<SessionObservationView> {
    match o {
        Some(s) => Some(s@),
        None => None,
    }
}

pub open spec fn obs_views(s: Seq<SessionObservation>) -> Seq<SessionObservationView> {
    s.map_values(|o: SessionObservation| o@)
}

pub open spec fn disc_views(s: Seq<DiscoveredPlayer>) -> Seq<DiscoveredPlayerView> {
    s.map_values(|d: DiscoveredPlayer| d@)
}

impl View for MusicController {
    type V = MusicControllerView;

    closed spec fn view(&self) -> MusicControllerView {
        MusicControllerView {
            selected: view_of_opt_obs(self.selected),
            sessions: obs_views(self.sessions@),
            discovered: disc_views(self.discovered@),
        }
    }
}

impl MusicController {
    /// A controller with empty maps and no selection.
    pub fn new() -> (r: Self)
        ensures
            r@.selected is None,
            r@.sessions == Seq::<SessionObservationView>::empty(),
            r@.discovered == Seq::<DiscoveredPlayerView>::empty(),
    {
        let r = MusicController { selected: None, sessions: Vec::new(), discovered: Vec::new() };
        proof {
            assert(r@.sessions =~= Seq::<SessionObservationView>::empty());
            assert(r@.discovered =~= Seq::<DiscoveredPlayerView>::empty());
        }
        r
    }

    /// Rebuild both maps from one discovery pass, atomically: the
    /// identity-keyed discovery map and the bus-keyed session map both
    /// come from the same observation list, and nothing of the old
    /// maps survives.  A failed enumeration is represented by handing
    /// in the empty list.
    pub fn discover_all_players(&mut self, observations: Vec<SessionObservation>)
        ensures
            final(self)@.discovered == discovery_fold(obs_views(observations@)),
            final(self)@.sessions == sessions_fold(obs_views(observations@)),
            final(self)@.selected == old(self)@.selected,
    {
        let ghost ov = obs_views(observations@);
        let mut discovered: Vec<DiscoveredPlayer> = Vec::new();
        let mut sessions: Vec<SessionObservation> = Vec::new();
        let mut rest = observations;
        let ghost mut k: int = 0;
        proof {
            assert(disc_views(discovered@) =~= discovery_fold(ov.take(0)));
            assert(obs_views(sessions@) =~= sessions_fold(ov.take(0)));
            assert(obs_views(rest@) =~= ov.skip(0));
        }
        while rest.len() > 0
            invariant
                0 <= k <= ov.len(),
                obs_views(rest@) =~= ov.skip(k),
                disc_views(discovered@) == discovery_fold(ov.take(k)),
                obs_views(sessions@) == sessions_fold(ov.take(k)),
            decreases rest@.len(),
        {
            let ghost rest0 = obs_views(rest@);
            let o = rest.remove(0);
            proof {
                assert(o@ == rest0[0]);
                assert(obs_views(rest@) =~= rest0.remove(0));
                assert(rest0.remove(0) =~= ov.skip(k + 1));
                assert(o@ == ov[k]);
                assert(ov.take(k + 1).drop_last() =~= ov.take(k));
                assert(ov.take(k + 1).last() == ov[k]);
            }
            // discovery entry, keyed by identity, last write wins
            let is_active = match o.status {
                Some(PlaybackStatus::Playing) => true,
                _ => false,
            };
            let d = DiscoveredPlayer { identity: o.identity.clone(), is_active };
            proof {
                assert(d@ == discovered_of(ov[k]));
                lemma_find_ident(disc_views(discovered@), d@.identity);
            }
            let ghost disc0 = disc_views(discovered@);
            let dn = discovered.len();
            let mut di: usize = 0;
            while di < dn && !str_eq(discovered[di].identity.as_str(), d.identity.as_str())
                invariant
                    dn == discovered@.len(),
                    disc0 == disc_views(discovered@),
                    di <= dn,
                    d@ == discovered_of(ov[k]),
                    forall|j: int| 0 <= j < di ==> disc0[j].identity != d@.identity,
                decreases dn - di,
            {
                di = di + 1;
            }
            if di < dn {
                proof {
                    assert(disc0[di as int].identity == d@.identity);
                    assert(find_ident(disc0, d@.identity) == di as int);
                }
                discovered.set(di, d);
                proof {
                    assert(disc_views(discovered@) =~= disc0.update(
                        di as int,
                        discovered_of(ov[k]),
                    ));
                }
            } else {
                proof {
                    assert(find_ident(disc0, d@.identity) == -1);
                }
                discovered.push(d);
                proof {
                    assert(disc_views(discovered@) =~= disc0.push(discovered_of(ov[k])));
                }
            }
            // session entry, keyed by bus name, last write wins
            proof {
                lemma_find_bus(obs_views(sessions@), ov[k].bus_name);
            }
            let ghost sess0 = obs_views(sessions@);
            let sn = sessions.len();
            let mut si: usize = 0;
            while si < sn && !str_eq(sessions[si].bus_name.as_str(), o.bus_name.as_str())
                invariant
                    sn == sessions@.len(),
                    sess0 == obs_views(sessions@),
                    si <= sn,
                    o@ == ov[k],
                    forall|j: int| 0 <= j < si ==> sess0[j].bus_name != o@.bus_name,
                decreases sn - si,
            {
                si = si + 1;
            }
            if si < sn {
                proof {
                    assert(sess0[si as int].bus_name == o@.bus_name);
                    assert(find_bus(sess0, o@.bus_name) == si as int);
                }
                sessions.set(si, o);
                proof {
                    assert(obs_views(sessions@) =~= sess0.update(si as int, ov[k]));
                }
            } else {
                proof {
                    assert(find_bus(sess0, o@.bus_name) == -1);
                }
                sessions.push(o);
                proof {
                    assert(obs_views(sessions@) =~= sess0.push(ov[k]));
                }
            }
            proof {
                k = k + 1;
            }
        }
        proof {
            assert(ov.take(k) =~= ov);
        }
        self.discovered = discovered;
        self.sessions = sessions;
    }

    /// Select the given session, when the host reported an active one;
    /// keep the previous selection otherwise.
    pub fn find_active_player(&mut self, active: Option<SessionObservation>)
        ensures
            final(self)@.sessions == old(self)@.sessions,
            final(self)@.discovered == old(self)@.discovered,
            match active {
                Some(o) => final(self)@.selected == Some(o@),
                None => final(self)@.selected == old(self)@.selected,
            },
    {
        match active {
            Some(o) => {
                self.selected = Some(o);
            },
            None => {},
        }
    }

    /// Select the first of a fresh enumeration whose identity matches
    /// the name exactly; clear the selection when none does, so an
    /// unavailable player yields "no player" rather than a stale one.
    pub fn find_specific_player(&mut self, player_name: &str, observations: Vec<
        SessionObservation,
    >)
        ensures
            final(self)@.sessions == old(self)@.sessions,
            final(self)@.discovered == old(self)@.discovered,
            ({
                let ov = obs_views(observations@);
                let i = find_obs_ident(ov, player_name@);
                if i >= 0 {
                    final(self)@.selected == Some(ov[i])
                } else {
                    final(self)@.selected is None
                }
            }),
    {
        let ghost ov = obs_views(observations@);
        proof {
            lemma_find_obs_ident(ov, player_name@);
        }
        let n = observations.len();
        let mut i: usize = 0;
        while i < n && !str_eq(observations[i].identity.as_str(), player_name)
            invariant
                n == observations@.len(),
                ov == obs_views(observations@),
                i <= n,
                forall|j: int| 0 <= j < i ==> ov[j].identity != player_name@,
            decreases n - i,
        {
            i = i + 1;
        }
        if i < n {
            proof {
                assert(ov[i as int].identity == player_name@);
                assert(find_obs_ident(ov, player_name@) == i as int);
            }
            let mut observations = observations;
            let o = observations.remove(i);
            proof {
                assert(o@ == ov[i as int]);
            }
            self.selected = Some(o);
        } else {
            proof {
                assert(find_obs_ident(ov, player_name@) == -1);
            }
            self.selected = None;
        }
    }

    /// The discovery entries, in map order.
    pub fn get_discovered_players(&self) -> (r: Vec<DiscoveredPlayer>)
        ensures
            disc_views(r@) == self@.discovered,
    {
        let mut r: Vec<DiscoveredPlayer> = Vec::new();
        let n = self.discovered.len();
        let mut i: usize = 0;
        while i < n
            invariant
                n == self.discovered@.len(),
                self@.discovered == disc_views(self.discovered@),
                i <= n,
                disc_views(r@) =~= self@.discovered.take(i as int),
            decreases n - i,
        {
            let d = self.discovered[i].clone();
            proof {
                assert(d@ == self@.discovered[i as int]);
            }
            let ghost r0 = disc_views(r@);
            r.push(d);
            proof {
                assert(disc_views(r@) =~= r0.push(d@));
                assert(r0.push(d@) =~= self@.discovered.take(i + 1));
                assert(disc_views(r@) =~= self@.discovered.take(i + 1));
            }
            i = i + 1;
        }
        proof {
            assert(self@.discovered.take(n as int) =~= self@.discovered);
        }
        r
    }

    /// The display snapshot of the selected session, or the placeholder
    /// when none is selected.  Never fails.
    pub fn get_player_info(&self, mixer: Option<&AudioController>) -> (r: PlayerInfo)
        ensures
            match self@.selected {
                Some(o) => r@ == extract_spec(o, mixer_view(mixer)),
                None => r@ == crate::player::default_player_info(),
            },
    {
        match &self.selected {
            Some(o) => extract_player_info(o, mixer),
            None => PlayerInfo::default(),
        }
    }

    /// The aggregated display list over every session of the last
    /// discovery pass: extract each, dedup the firefox-identified ones,
    /// sort case-insensitively by identity.
    pub fn get_all_players_info(&self, mixer: Option<&AudioController>) -> (r: Vec<PlayerInfo>)
        ensures
            sorted_by_identity(views_of(r@)),
            views_of(r@).to_multiset() == merged_view(
                extract_all(self@.sessions, mixer_view(mixer)),
            ).to_multiset(),
    {
        let mut infos: Vec<PlayerInfo> = Vec::new();
        let n = self.sessions.len();
        let mut i: usize = 0;
        proof {
            assert(views_of(infos@) =~= extract_all(self@.sessions, mixer_view(mixer)).take(0));
        }
        while i < n
            invariant
                n == self.sessions@.len(),
                self@.sessions == obs_views(self.sessions@),
                i <= n,
                views_of(infos@) =~= extract_all(self@.sessions, mixer_view(mixer)).take(i as int),
            decreases n - i,
        {
            let info = extract_player_info(&self.sessions[i], mixer);
            proof {
                assert(info@ == extract_all(self@.sessions, mixer_view(mixer))[i as int]);
            }
            let ghost infos0 = views_of(infos@);
            infos.push(info);
            proof {
                assert(views_of(infos@) =~= infos0.push(info@));
                assert(infos0.push(info@) =~= extract_all(self@.sessions, mixer_view(mixer)).take(
                    i + 1,
                ));
                assert(views_of(infos@) =~= extract_all(self@.sessions, mixer_view(mixer)).take(
                    i + 1,
                ));
            }
            i = i + 1;
        }
        proof {
            assert(extract_all(self@.sessions, mixer_view(mixer)).take(n as int) =~= extract_all(
                self@.sessions,
                mixer_view(mixer),
            ));
        }
        aggregate(infos)
    }

    /// The identity of the session under this bus name, when known.
    pub fn session_identity(&self, bus_name: &str) -> (r: Option<&String>)
        ensures
            ({
                let i = find_bus(self@.sessions, bus_name@);
                match r {
                    Some(s) => i >= 0 && s@ == self@.sessions[i].identity,
                    None => i == -1,
                }
            }),
    {
        proof {
            lemma_find_bus(self@.sessions, bus_name@);
        }
        let n = self.sessions.len();
        let mut i: usize = 0;
        while i < n
            invariant
                n == self.sessions@.len(),
                self@.sessions == obs_views(self.sessions@),
                i <= n,
                forall|j: int| 0 <= j < i ==> self@.sessions[j].bus_name != bus_name@,
                find_bus(self@.sessions, bus_name@) == -1 || 0 <= find_bus(
                    self@.sessions,
                    bus_name@,
                ) < self@.sessions.len(),
                find_bus(self@.sessions, bus_name@) >= 0 ==> self@.sessions[find_bus(
                    self@.sessions,
                    bus_name@,
                )].bus_name == bus_name@,
                forall|j: int|
                    0 <= j < self@.sessions.len() && (j < find_bus(self@.sessions, bus_name@)
                        || find_bus(self@.sessions, bus_name@) == -1) ==> self@.sessions[j].bus_name
                        != bus_name@,
            decreases n - i,
        {
            if str_eq(self.sessions[i].bus_name.as_str(), bus_name) {
                proof {
                    assert(self@.sessions[i as int].bus_name == bus_name@);
                    assert(find_bus(self@.sessions, bus_name@) == i as int);
                }
                return Some(&self.sessions[i].identity);
            }
            i = i + 1;
        }
        None
    }

    /// The volume-write chain for the session under this bus name.
    /// `native_set_ok` reports whether the native protocol call went
    /// through; only on its failure does the chain consult the mixer.
    /// `None` means nothing is left to do — the caller reports success.
    pub fn set_volume_player(
        &self,
        bus_name: &str,
        native_set_ok: bool,
        mixer: Option<&AudioController>,
        target_percent: u32,
    ) -> (r: Option<VolumeWrite>)
        ensures
            ({
                let plan = set_volume_plan(
                    self@.sessions,
                    bus_name@,
                    native_set_ok,
                    mixer_view(mixer),
                    target_percent,
                );
                match r {
                    Some(w) => plan == Some((w.index, w.percent)),
                    None => plan is None,
                }
            }),
    {
        if native_set_ok {
            return None;
        }
        let identity = match self.session_identity(bus_name) {
            Some(s) => s,
            None => {
                return None;
            },
        };
        match mixer {
            Some(ac) => match ac.find_sink_input_by_name(identity.as_str()) {
                Some(rec) => Some(ac.set_sink_input_volume(rec.index, target_percent)),
                None => None,
            },
            None => None,
        }
    }

    /// The volume-write chain for the selected session, as
    /// [`Self::set_volume_player`] for a bus name.  `None` also when no
    /// session is selected.
    pub fn set_volume(
        &self,
        native_set_ok: bool,
        mixer: Option<&AudioController>,
        target_percent: u32,
    ) -> (r: Option<VolumeWrite>)
        ensures
            ({
                let plan = match self@.selected {
                    Some(o) => selected_volume_plan(
                        o,
                        native_set_ok,
                        mixer_view(mixer),
                        target_percent,
                    ),
                    None => None,
                };
                match r {
                    Some(w) => plan == Some((w.index, w.percent)),
                    None => plan is None,
                }
            }),
    {
        if native_set_ok {
            return None;
        }
        let identity = match &self.selected {
            Some(o) => &o.identity,
            None => {
                return None;
            },
        };
        match mixer {
            Some(ac) => match ac.find_sink_input_by_name(identity.as_str()) {
                Some(rec) => Some(ac.set_sink_input_volume(rec.index, target_percent)),
                None => None,
            },
            None => None,
        }
    }
}

/// The volume-write chain for one known session.
pub open spec fn selected_volume_plan(
    o: SessionObservationView,
    native_set_ok: bool,
    mixer: Option<Seq<AudioSinkInputView>>,
    target_percent: u32,
) -> Option<(u32, u32)> {
    if native_set_ok {
        None
    } else {
        match mixer {
            Some(recs) => {
                let m = find_match(recs, encode_utf8(o.identity));
                if m >= 0 {
                    Some((recs[m].index, clamp_percent(target_percent)))
                } else {
                    None
                }
            },
            None => None,
        }
    }
}

} // verus!
