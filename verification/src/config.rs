//! The settings that a player chooses before a game.

use vstd::prelude::*;
use crate::init_game::{init_players, GameState};
use crate::net::GGRSConfig;
use crate::player::{starting_hp, starting_mp, starting_primary, PlayerClass};

verus! {

#[derive(Clone, Copy, Debug, PartialEq, Eq, Structural)]
pub struct PlayerConfigInfo {
    pub class: PlayerClass,
}

impl Default for PlayerConfigInfo {
    fn default() -> (config: PlayerConfigInfo)
        ensures
            config == (PlayerConfigInfo { class: PlayerClass::Warrior }),
    {
        PlayerConfigInfo { class: PlayerClass::Warrior }
    }
}

#[derive(Clone, Copy, Debug, PartialEq, Eq, Structural)]
pub struct ConfigInfo {
    pub player_config_info: PlayerConfigInfo,
    pub net_config_info: GGRSConfig,
}

impl Default for ConfigInfo {
    fn default() -> (config: ConfigInfo)
        ensures
            config == (ConfigInfo {
                player_config_info: PlayerConfigInfo { class: PlayerClass::Warrior },
                net_config_info: GGRSConfig {
                    multiplayer: false,
                    local_port: 1111,
                    remote_port: 2222,
                },
            }),
    {
        ConfigInfo {
            player_config_info: PlayerConfigInfo { class: PlayerClass::Warrior },
            net_config_info: GGRSConfig { multiplayer: false, local_port: 1111, remote_port: 2222 },
        }
    }
}

impl ConfigInfo {
    pub fn set_class(&mut self, class: PlayerClass)
        ensures
            *final(self) == (ConfigInfo {
                player_config_info: PlayerConfigInfo { class },
                ..*old(self)
            }),
    {
        self.player_config_info.class = class;
    }

    pub fn class(&self) -> (class: PlayerClass)
        ensures
            class == self.player_config_info.class,
    {
        self.player_config_info.class
    }

    pub fn local_port(&self) -> (port: u16)
        ensures
            port == self.net_config_info.local_port,
    {
        self.net_config_info.local_port
    }

    pub fn multiplayer(&self) -> (r: bool)
        ensures
            r == self.net_config_info.multiplayer,
    {
        self.net_config_info.multiplayer
    }

    pub fn set_opposite_multiplayer(&mut self)
        ensures
            *final(self) == (ConfigInfo {
                net_config_info: GGRSConfig {
                    multiplayer: !old(self).net_config_info.multiplayer,
                    ..old(self).net_config_info
                },
                ..*old(self)
            }),
    {
        self.net_config_info.multiplayer = !self.net_config_info.multiplayer;
    }

    pub fn set_local_port(&mut self, local_port: u16)
        ensures
            *final(self) == (ConfigInfo {
                net_config_info: GGRSConfig { local_port, ..old(self).net_config_info },
                ..*old(self)
            }),
    {
        self.net_config_info.local_port = local_port;
    }

    pub fn remote_port(&self) -> (port: u16)
        ensures
            port == self.net_config_info.remote_port,
    {
        self.net_config_info.remote_port
    }

    pub fn set_remote_port(&mut self, remote_port: u16)
        ensures
            *final(self) == (ConfigInfo {
                net_config_info: GGRSConfig { remote_port, ..old(self).net_config_info },
                ..*old(self)
            }),
    {
        self.net_config_info.remote_port = remote_port;
    }

    /// How many players a game with these settings has.
    pub open spec fn num_players(&self) -> int {
        if self.net_config_info.multiplayer {
            2
        } else {
            1
        }
    }

    /// Starts the game over with these settings: the players are made
    /// anew, of the class chosen, two of them for a game over the network
    /// and one otherwise, where the current floor is entered.
    pub fn set_config(&self, game_state: &mut GameState)
        requires
            old(game_state).map.current_floor_index < old(game_state).map.rooms@.len(),
        ensures
            final(game_state).frame == old(game_state).frame,
            final(game_state).attacks == old(game_state).attacks,
            final(game_state).map == old(game_state).map,
            final(game_state).rng == old(game_state).rng,
            final(game_state).players@.len() == self.num_players(),
            forall|i: int|
                0 <= i < final(game_state).players@.len() ==> crate::player::newly_made(
                    #[trigger] final(game_state).players@[i],
                    self.player_config_info.class,
                    old(game_state).map.rooms@[old(game_state).map.current_floor_index as int].spawn,
                ),
    {
        let num_players: usize = if self.multiplayer() {
            2
        } else {
            1
        };
        game_state.players = init_players(
            self.player_config_info.class,
            &game_state.map,
            num_players,
        );
    }
}

} // verus!
