//! Configuration values.
use vstd::prelude::*;

verus! {

/// Per-device pointer settings; a setting that is absent keeps the device's default.
#[derive(Debug, Clone, Copy, PartialEq, Eq, Structural)]
pub struct PointerConfig {
    pub tap_to_click: Option<bool>,
    pub natural_scroll: Option<bool>,
}

/// What the parts of a path say.
pub open spec fn part_views(parts: Seq<String>) -> Seq<Seq<char>> {
    parts.map_values(|p: String| p@)
}

/// The directory of configuration files: the one that is set, else the usual one in the home
/// directory.
pub open spec fn config_dir_parts(xdg_config_home: Option<Seq<char>>, home: Option<Seq<char>>) -> Option<
    Seq<Seq<char>>,
> {
    match (xdg_config_home, home) {
        (Some(dir), _) => Some(seq![dir]),
        (None, Some(home)) => Some(seq![home, ".config"@]),
        (None, None) => None,
    }
}

/// What an optional text says.
pub open spec fn text_view(text: Option<String>) -> Option<Seq<char>> {
    match text {
        Some(text) => Some(text@),
        None => None,
    }
}

/// The directory of configuration files, in parts.
pub fn config_dir(xdg_config_home: Option<String>, home: Option<String>) -> (r: Option<Vec<String>>)
    ensures
        r is Some == config_dir_parts(text_view(xdg_config_home), text_view(home)) is Some,
        r matches Some(parts) ==> config_dir_parts(text_view(xdg_config_home), text_view(home)) == Some(
            part_views(parts@),
        ),
{
    let mut parts: Vec<String> = Vec::new();
    match (xdg_config_home, home) {
        (Some(dir), _) => {
            let ghost d = dir@;
            parts.push(dir);
            assert(part_views(parts@) =~= seq![d]);
            Some(parts)
        },
        (None, Some(home)) => {
            let ghost h = home@;
            parts.push(home);
            parts.push(".config".to_owned());
            assert(part_views(parts@) =~= seq![h, ".config"@]);
            Some(parts)
        },
        (None, None) => None,
    }
}

/// The configuration file, in parts.
pub fn config_path(xdg_config_home: Option<String>, home: Option<String>) -> (r: Option<Vec<String>>)
    ensures
        r is Some == config_dir_parts(text_view(xdg_config_home), text_view(home)) is Some,
        r matches Some(parts) ==> part_views(parts@) == config_dir_parts(
            text_view(xdg_config_home),
            text_view(home),
        )->0 + seq!["ewc"@, "config.toml"@],
{
    match config_dir(xdg_config_home, home) {
        None => None,
        Some(mut parts) => {
            let ghost before = part_views(parts@);
            parts.push("ewc".to_owned());
            parts.push("config.toml".to_owned());
            assert(part_views(parts@) =~= before + seq!["ewc"@, "config.toml"@]);
            Some(parts)
        },
    }
}

} // verus!
