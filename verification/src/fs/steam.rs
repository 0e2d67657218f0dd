//! Where a Steam install of the game is looked for.
use vstd::prelude::*;
use crate::fs::cdn::cache::{join_path, joined_path};
use crate::text::str_eq;

verus! {

/// The folder that each major version of the game installs into inside a Steam library.
pub open spec fn steam_game_folder(patch: Seq<char>) -> Option<Seq<char>> {
    if patch == "1"@ {
        Some("Path of Exile"@)
    } else if patch == "2"@ {
        Some("Path of Exile 2"@)
    } else {
        None
    }
}

/// The places the game folder is looked for, in order: the Steam libraries of Linux and macOS
/// under the home folder, the Windows install folder, and one more library.
pub open spec fn steam_search_order(home: Seq<char>, game: Seq<char>) -> Seq<Seq<char>> {
    seq![
        joined_path(joined_path(home, ".local/share/Steam/steamapps/common"@), game),
        joined_path(joined_path(home, "Library/Application Support/Steam/steamapps/common"@), game),
        joined_path("C:\\Program Files (x86)\\Grinding Gear Games"@, game),
        joined_path("/mnt/e/SteamLibrary/steamapps/common"@, game),
    ]
}

/// The folders where a Steam install of the given patch ("1" or "2") may be, in the order they
/// are searched; `None` for any other patch.
pub fn steam_folder_candidates(home: &str, patch: &str) -> (r: Option<Vec<String>>)
    ensures
        match steam_game_folder(patch@) {
            Some(game) => r matches Some(v) && v@.map_values(|s: String| s@) == steam_search_order(
                home@,
                game,
            ),
            None => r is None,
        },
{
    let game = if str_eq(patch, "1") {
        "Path of Exile"
    } else if str_eq(patch, "2") {
        "Path of Exile 2"
    } else {
        return None;
    };
    let linux = join_path(home, ".local/share/Steam/steamapps/common");
    let mac = join_path(home, "Library/Application Support/Steam/steamapps/common");
    let mut out: Vec<String> = Vec::new();
    out.push(join_path(linux.as_str(), game));
    out.push(join_path(mac.as_str(), game));
    out.push(join_path("C:\\Program Files (x86)\\Grinding Gear Games", game));
    out.push(join_path("/mnt/e/SteamLibrary/steamapps/common", game));
    assert(out@.map_values(|s: String| s@) =~= steam_search_order(home@, game@));
    Some(out)
}

} // verus!
