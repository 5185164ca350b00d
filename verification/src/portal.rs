//! What the downloader computes before it touches the network: the portal
//! URLs, built verbatim from plain values. The requests themselves, and the
//! credentials file they need, live with the caller.

use vstd::prelude::*;
use vstd::string::*;

verus! {

/// The player's portal credentials, read from the game instance's player
/// data by the caller.
#[derive(Debug, Clone)]
pub struct PlayerCreds {
    pub username: String,
    pub token: String,
}

/// The URL listing every mod with its latest release.
pub fn mod_list_url() -> (r: String)
    ensures
        r@ == "https://mods.factorio.com/api/mods?page_size=max"@,
{
    String::from_str("https://mods.factorio.com/api/mods?page_size=max")
}

/// The URL of the full metadata of the mod named `name`.
pub fn mod_meta_full_url(name: &str) -> (r: String)
    ensures
        r@ == "https://mods.factorio.com/api/mods/"@ + name@ + "/full"@,
{
    let mut u = String::from_str("https://mods.factorio.com/api/mods/");
    u.append(name);
    u.append("/full");
    u
}

/// The URL that downloads a release, given the relative download path the
/// listing reports for it.
pub fn mod_download_url(download_url: &str, creds: &PlayerCreds) -> (r: String)
    ensures
        r@ == "https://mods.factorio.com/"@ + download_url@ + "?username="@ + creds.username@
            + "&token="@ + creds.token@,
{
    let mut u = String::from_str("https://mods.factorio.com/");
    u.append(download_url);
    u.append("?username=");
    u.append(creds.username.as_str());
    u.append("&token=");
    u.append(creds.token.as_str());
    u
}

/// The URL listing the player's bookmarks.
pub fn bookmark_list_url(creds: &PlayerCreds) -> (r: String)
    ensures
        r@ == "https://mods.factorio.com/api/bookmarks?username="@ + creds.username@ + "&token="@
            + creds.token@,
{
    let mut u = String::from_str("https://mods.factorio.com/api/bookmarks?username=");
    u.append(creds.username.as_str());
    u.append("&token=");
    u.append(creds.token.as_str());
    u
}

/// The URL that turns the bookmark on the mod named `mod_name` on or off.
pub fn bookmark_toggle_url(creds: &PlayerCreds, mod_name: &str, on: bool) -> (r: String)
    ensures
        r@ == "https://mods.factorio.com/api/bookmarks/toggle?username="@ + creds.username@
            + "&token="@ + creds.token@ + "&mod="@ + mod_name@ + "&state="@ + (if on {
            "on"@
        } else {
            "off"@
        }),
{
    let mut u = String::from_str("https://mods.factorio.com/api/bookmarks/toggle?username=");
    u.append(creds.username.as_str());
    u.append("&token=");
    u.append(creds.token.as_str());
    u.append("&mod=");
    u.append(mod_name);
    u.append("&state=");
    if on {
        u.append("on");
    } else {
        u.append("off");
    }
    u
}

} // verus!
