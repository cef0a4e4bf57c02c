//! Which file the grid's typeface is read from.

use crate::text;
use vstd::prelude::*;
use vstd::string::*;

verus! {

/// Where a machine keeps its typefaces.
#[derive(Debug, Clone, Copy, PartialEq, Eq, Structural)]
pub enum FontPlatform {
    Unix,
    MacOs,
    Windows,
}

/// The monospaced typefaces that a machine may have, most common first.
pub open spec fn candidates(platform: FontPlatform) -> Seq<Seq<char>> {
    match platform {
        FontPlatform::Unix => seq![
            "/usr/share/fonts/truetype/dejavu/DejaVuSansMono.ttf"@,
            "/usr/share/fonts/TTF/DejaVuSansMono.ttf"@,
            "/usr/share/fonts/dejavu/DejaVuSansMono.ttf"@,
            "/usr/share/fonts/truetype/liberation/LiberationMono-Regular.ttf"@,
            "/usr/share/fonts/liberation-mono/LiberationMono-Regular.ttf"@,
            "/usr/share/fonts/truetype/ubuntu/UbuntuMono-R.ttf"@,
            "/usr/share/fonts/truetype/noto/NotoSansMono-Regular.ttf"@,
            "/usr/share/fonts/noto/NotoSansMono-Regular.ttf"@,
            "/usr/share/fonts/truetype/freefont/FreeMono.ttf"@,
        ],
        FontPlatform::MacOs => seq![
            "/System/Library/Fonts/SFNSMono.ttf"@,
            "/System/Library/Fonts/Menlo.ttc"@,
            "/System/Library/Fonts/Monaco.ttf"@,
            "/Library/Fonts/Courier New.ttf"@,
        ],
        FontPlatform::Windows => seq![
            "C:\\Windows\\Fonts\\CascadiaMono.ttf"@,
            "C:\\Windows\\Fonts\\consola.ttf"@,
            "C:\\Windows\\Fonts\\lucon.ttf"@,
            "C:\\Windows\\Fonts\\cour.ttf"@,
        ],
    }
}

/// The files to try, in order: the configured one where there is one, then those that the machine
/// may have. A file that cannot be read costs the right typeface, not the text.
pub open spec fn search_order(configured: Option<&str>, platform: FontPlatform) -> Seq<Seq<char>> {
    match configured {
        Some(path) if path@.len() > 0 => seq![path@] + candidates(platform),
        _ => candidates(platform),
    }
}

pub fn font_search_order(configured: Option<&str>, platform: FontPlatform) -> (paths: Vec<String>)
    ensures
        text::texts(paths@) == search_order(configured, platform),
{
    let mut paths: Vec<String> = Vec::new();
    if let Some(path) = configured {
        if path.unicode_len() > 0 {
            paths.push(text::duplicate(path));
        }
    }
    let ghost first = text::texts(paths@);
    assert(first + candidates(platform) =~= search_order(configured, platform)) by {
        match configured {
            Some(path) if path@.len() > 0 => {
                assert(first =~= seq![path@]);
            },
            _ => {
                assert(first =~= seq![]);
            },
        }
    }
    match platform {
        FontPlatform::Unix => {
            paths.push("/usr/share/fonts/truetype/dejavu/DejaVuSansMono.ttf".to_owned());
            paths.push("/usr/share/fonts/TTF/DejaVuSansMono.ttf".to_owned());
            paths.push("/usr/share/fonts/dejavu/DejaVuSansMono.ttf".to_owned());
            paths.push("/usr/share/fonts/truetype/liberation/LiberationMono-Regular.ttf".to_owned());
            paths.push("/usr/share/fonts/liberation-mono/LiberationMono-Regular.ttf".to_owned());
            paths.push("/usr/share/fonts/truetype/ubuntu/UbuntuMono-R.ttf".to_owned());
            paths.push("/usr/share/fonts/truetype/noto/NotoSansMono-Regular.ttf".to_owned());
            paths.push("/usr/share/fonts/noto/NotoSansMono-Regular.ttf".to_owned());
            paths.push("/usr/share/fonts/truetype/freefont/FreeMono.ttf".to_owned());
        },
        FontPlatform::MacOs => {
            paths.push("/System/Library/Fonts/SFNSMono.ttf".to_owned());
            paths.push("/System/Library/Fonts/Menlo.ttc".to_owned());
            paths.push("/System/Library/Fonts/Monaco.ttf".to_owned());
            paths.push("/Library/Fonts/Courier New.ttf".to_owned());
        },
        FontPlatform::Windows => {
            paths.push("C:\\Windows\\Fonts\\CascadiaMono.ttf".to_owned());
            paths.push("C:\\Windows\\Fonts\\consola.ttf".to_owned());
            paths.push("C:\\Windows\\Fonts\\lucon.ttf".to_owned());
            paths.push("C:\\Windows\\Fonts\\cour.ttf".to_owned());
        },
    }
    assert(text::texts(paths@) =~= first + candidates(platform));
    paths
}

/// A configured file is tried before all others, and whether one is configured changes nothing else;
/// an empty path configures nothing. There is always a file to try.
pub proof fn law_the_configured_font_comes_first(path: &str, platform: FontPlatform)
    ensures
        path@.len() > 0 ==> search_order(Some(path), platform).len() > 0 && search_order(
            Some(path),
            platform,
        )[0] == path@ && search_order(Some(path), platform).skip(1) == search_order(None, platform),
        path@.len() == 0 ==> search_order(Some(path), platform) == search_order(None, platform),
        search_order(None, platform).len() > 0,
{
    if path@.len() > 0 {
        assert(search_order(Some(path), platform).skip(1) =~= candidates(platform));
    }
}

} // verus!
