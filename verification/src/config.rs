//! The applet's persisted settings, as an in-memory value: the enabled
//! player set, the auto-detect flag, the selected player, and the two
//! display flags.  Writing the value through to the settings store is
//! the caller's concern; every setter here says exactly what changes.

use vstd::prelude::*;

use crate::text::str_eq;

verus! {

/// Spec-level image of an [`AppConfig`].
pub struct AppConfigView {
    pub enabled_players: Seq<Seq<char>>,
    pub auto_detect_new_players: bool,
    pub selected_player: Option<Seq<char>>,
    pub show_all_players: bool,
    pub hide_inactive_players: bool,
}

/// The applet's settings.  `enabled_players` is a set kept as a list
/// without duplicates, in insertion order.
pub struct AppConfig {
    pub enabled_players: Vec<String>,
    pub auto_detect_new_players: bool,
    pub selected_player: Option<String>,
    pub show_all_players: bool,
    pub hide_inactive_players: bool,
}

impl View for AppConfig {
    type V = AppConfigView;

    open spec fn view(&self) -> AppConfigView {
        AppConfigView {
            enabled_players: self.enabled_players@.map_values(|p: String| p@),
            auto_detect_new_players: self.auto_detect_new_players,
            selected_player: match self.selected_player {
                Some(p) => Some(p@),
                None => None,
            },
            show_all_players: self.show_all_players,
            hide_inactive_players: self.hide_inactive_players,
        }
    }
}

/// The enabled-player list holds no identity twice.
pub open spec fn config_wf(c: AppConfigView) -> bool {
    forall|i: int, j: int|
        0 <= i < j < c.enabled_players.len() ==> c.enabled_players[i] != c.enabled_players[j]
}

/// An identity is in the enabled set.
pub open spec fn player_enabled(c: AppConfigView, name: Seq<char>) -> bool {
    exists|i: int| 0 <= i < c.enabled_players.len() && c.enabled_players[i] == name
}

impl Default for AppConfig {
    /// Fresh settings: nothing enabled, auto-detect on, no selection,
    /// single-player display.
    fn default() -> (r: Self)
        ensures
            r@.enabled_players == Seq::<Seq<char>>::empty(),
            r@.auto_detect_new_players,
            r@.selected_player is None,
            !r@.show_all_players,
            !r@.hide_inactive_players,
            config_wf(r@),
    {
        let r = AppConfig {
            enabled_players: Vec::new(),
            auto_detect_new_players: true,
            selected_player: None,
            show_all_players: false,
            hide_inactive_players: false,
        };
        proof {
            assert(r@.enabled_players =~= Seq::<Seq<char>>::empty());
        }
        r
    }
}

impl AppConfig {
    /// The selected player's identity, when one is selected.
    pub fn get_selected_player(&self) -> (r: Option<String>)
        ensures
            match r {
                Some(p) => self@.selected_player == Some(p@),
                None => self@.selected_player is None,
            },
    {
        match &self.selected_player {
            Some(p) => Some(p.clone()),
            None => None,
        }
    }

    /// Select a player, or select none.
    pub fn set_selected_player(&mut self, player: Option<String>)
        ensures
            final(self)@ == (AppConfigView {
                selected_player: match player {
                    Some(p) => Some(p@),
                    None => None,
                },
                ..old(self)@
            }),
    {
        self.selected_player = player;
    }

    pub fn get_auto_detect_new_players(&self) -> (r: bool)
        ensures
            r == self@.auto_detect_new_players,
    {
        self.auto_detect_new_players
    }

    pub fn set_auto_detect_new_players(&mut self, auto_detect: bool)
        ensures
            final(self)@ == (AppConfigView { auto_detect_new_players: auto_detect, ..old(self)@ }),
    {
        self.auto_detect_new_players = auto_detect;
    }

    /// Note a discovered player: with auto-detect on, add its identity
    /// to the enabled set; with auto-detect off, change nothing.
    pub fn add_discovered_player(&mut self, player_name: String)
        ensures
            config_wf(old(self)@) ==> config_wf(final(self)@),
            final(self)@.auto_detect_new_players == old(self)@.auto_detect_new_players,
            final(self)@.selected_player == old(self)@.selected_player,
            final(self)@.show_all_players == old(self)@.show_all_players,
            final(self)@.hide_inactive_players == old(self)@.hide_inactive_players,
            ({
                if old(self)@.auto_detect_new_players && !player_enabled(old(self)@, player_name@) {
                    final(self)@.enabled_players == old(self)@.enabled_players.push(player_name@)
                } else {
                    final(self)@.enabled_players == old(self)@.enabled_players
                }
            }),
    {
        if !self.auto_detect_new_players {
            return ;
        }
        let ghost ep = self@.enabled_players;
        let n = self.enabled_players.len();
        let mut i: usize = 0;
        while i < n
            invariant
                self@ == old(self)@,
                n == self.enabled_players@.len(),
                ep == self@.enabled_players,
                i <= n,
                forall|j: int| 0 <= j < i ==> ep[j] != player_name@,
            decreases n - i,
        {
            if str_eq(self.enabled_players[i].as_str(), player_name.as_str()) {
                proof {
                    assert(ep[i as int] == player_name@);
                    assert(player_enabled(self@, player_name@));
                }
                return ;
            }
            i = i + 1;
        }
        proof {
            assert(!player_enabled(self@, player_name@));
        }
        self.enabled_players.push(player_name);
        proof {
            assert(self@.enabled_players =~= ep.push(player_name@));
        }
    }

    pub fn get_show_all_players(&self) -> (r: bool)
        ensures
            r == self@.show_all_players,
    {
        self.show_all_players
    }

    pub fn set_show_all_players(&mut self, show_all: bool)
        ensures
            final(self)@ == (AppConfigView { show_all_players: show_all, ..old(self)@ }),
    {
        self.show_all_players = show_all;
    }

    pub fn get_hide_inactive_players(&self) -> (r: bool)
        ensures
            r == self@.hide_inactive_players,
    {
        self.hide_inactive_players
    }

    pub fn set_hide_inactive_players(&mut self, hide_inactive: bool)
        ensures
            final(self)@ == (AppConfigView { hide_inactive_players: hide_inactive, ..old(self)@ }),
    {
        self.hide_inactive_players = hide_inactive;
    }
}

} // verus!
