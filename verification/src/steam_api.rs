//! What the Steam Web API answers, as the application reads it, and the
//! requests it makes.

use vstd::prelude::*;
use crate::text::{decimal_string, int_decimal};

verus! {

/// Whether the player has unlocked an achievement of a game.
#[derive(Debug)]
pub struct PlayerAchievement {
    pub name: String,
    pub achieved: bool,
}

impl Clone for PlayerAchievement {
    fn clone(&self) -> (r: Self)
        ensures
            r == *self,
    {
        PlayerAchievement { name: self.name.clone(), achieved: self.achieved }
    }
}

/// An achievement as the player statistics answer lists it: its API name,
/// and 1 when it is unlocked.
#[derive(Debug)]
pub struct PlayerAchievementEntry {
    pub apiname: String,
    pub achieved: i32,
}

/// An achievement in a game's schema.
#[derive(Debug)]
pub struct GameAchievement {
    pub name: String,
    pub display_name: String,
    pub description: Option<String>,
    pub icon: String,
    pub icongray: String,
}

/// A copy of an optional string.
pub fn clone_opt_string(s: &Option<String>) -> (r: Option<String>)
    ensures
        r == *s,
{
    match s {
        Some(v) => Some(v.clone()),
        None => None,
    }
}

impl Clone for GameAchievement {
    fn clone(&self) -> (r: Self)
        ensures
            r == *self,
    {
        GameAchievement {
            name: self.name.clone(),
            display_name: self.display_name.clone(),
            description: clone_opt_string(&self.description),
            icon: self.icon.clone(),
            icongray: self.icongray.clone(),
        }
    }
}

/// A game the account owns; `last_played` is in seconds since the Unix
/// epoch, `playtime_forever` in minutes.
#[derive(Debug)]
pub struct OwnedGame {
    pub appid: i32,
    pub name: String,
    pub playtime_forever: u64,
    pub last_played: i64,
}

impl Clone for OwnedGame {
    fn clone(&self) -> (r: Self)
        ensures
            r == *self,
    {
        OwnedGame {
            appid: self.appid,
            name: self.name.clone(),
            playtime_forever: self.playtime_forever,
            last_played: self.last_played,
        }
    }
}

/// The player's achievements from a player statistics answer: none unless
/// the answer reports success and lists achievements (a game can succeed
/// without listing any); an achievement is unlocked when its flag is 1.
pub fn get_player_achievements(success: bool, achievements: &Option<Vec<PlayerAchievementEntry>>) -> (r: Vec<PlayerAchievement>)
    ensures
        match (success, achievements) {
            (true, Some(a)) => {
                &&& r@.len() == a@.len()
                &&& forall|i: int| 0 <= i < a@.len() ==> #[trigger] r@[i].name@ == a@[i].apiname@
                    && r@[i].achieved == (a@[i].achieved == 1)
            },
            _ => r@.len() == 0,
        },
{
    let mut r: Vec<PlayerAchievement> = Vec::new();
    if success {
        if let Some(a) = achievements {
            let mut i: usize = 0;
            while i < a.len()
                invariant
                    i <= a@.len(),
                    r@.len() == i,
                    forall|j: int| 0 <= j < i ==> (#[trigger] r@[j]).name@ == a@[j].apiname@
                        && r@[j].achieved == (a@[j].achieved == 1),
                decreases a@.len() - i,
            {
                r.push(PlayerAchievement { name: a[i].apiname.clone(), achieved: a[i].achieved == 1 });
                i += 1;
            }
        }
    }
    r
}

/// The achievements of a game's schema: none when the game has no
/// statistics.
pub fn get_game_achievements(stats: Option<Vec<GameAchievement>>) -> (r: Vec<GameAchievement>)
    ensures
        match stats {
            Some(a) => r == a,
            None => r@.len() == 0,
        },
{
    match stats {
        Some(a) => a,
        None => Vec::new(),
    }
}

/// The address of the player statistics request for a game.
pub open spec fn player_achievements_request(key: Seq<char>, steam_id: Seq<char>, app_id: i32) -> Seq<char> {
    "https://api.steampowered.com/ISteamUserStats/GetPlayerAchievements/v1/?"@ + "&key="@ + key
        + "&steamid="@ + steam_id + "&appid="@ + int_decimal(app_id as int)
}

/// The address of the schema request for a game.
pub open spec fn game_schema_request(key: Seq<char>, app_id: i32) -> Seq<char> {
    "https://api.steampowered.com/ISteamUserStats/GetSchemaForGame/v2/?key="@ + key + "&appid="@
        + int_decimal(app_id as int)
}

/// The address of a game's cover in the Steam store.
pub open spec fn store_cover_url(app_id: i32) -> Seq<char> {
    "https://shared.steamstatic.com/store_item_assets/steam/apps/"@ + int_decimal(app_id as int)
        + "/library_600x900_2x.jpg"@
}

/// Builds the player statistics request for a game.
pub fn player_achievements_url(key: &str, steam_id: &str, app_id: i32) -> (r: String)
    ensures
        r@ == player_achievements_request(key@, steam_id@, app_id),
{
    let mut r = String::from_str("https://api.steampowered.com/ISteamUserStats/GetPlayerAchievements/v1/?");
    r.append("&key=");
    r.append(key);
    r.append("&steamid=");
    r.append(steam_id);
    r.append("&appid=");
    let id = decimal_string(app_id as i64);
    r.append(id.as_str());
    r
}

/// Builds the schema request for a game.
pub fn game_schema_url(key: &str, app_id: i32) -> (r: String)
    ensures
        r@ == game_schema_request(key@, app_id),
{
    let mut r = String::from_str("https://api.steampowered.com/ISteamUserStats/GetSchemaForGame/v2/?key=");
    r.append(key);
    r.append("&appid=");
    let id = decimal_string(app_id as i64);
    r.append(id.as_str());
    r
}

/// The address to load a game's cover from: the custom cover stored for
/// the game when there is one, else the store's cover.
pub fn get_game_cover_blocking(stored: Option<String>, app_id: i32) -> (r: String)
    ensures
        match stored {
            Some(url) => r@ == url@,
            None => r@ == store_cover_url(app_id),
        },
{
    match stored {
        Some(url) => url,
        None => {
            let mut r = String::from_str("https://shared.steamstatic.com/store_item_assets/steam/apps/");
            let id = decimal_string(app_id as i64);
            r.append(id.as_str());
            r.append("/library_600x900_2x.jpg");
            r
        },
    }
}

} // verus!
