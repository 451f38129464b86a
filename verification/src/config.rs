//! Configuration values and where they are looked for.

use vstd::prelude::*;
use vstd::string::*;

verus! {

/// Top-level configuration.
#[derive(Debug)]
pub struct Config {
    pub background: Option<String>,
    pub gap: Option<i32>,
    pub layout: Option<String>,
    pub vnc: VncConfig,
    pub rdp: RdpConfig,
}

#[derive(Debug, Clone, Copy, PartialEq, Eq, Structural)]
pub struct VncConfig {
    pub port: u16,
}

/// How many columns and rows of tiles an output is cut into.
#[derive(Debug, Clone, Copy, PartialEq, Eq, Structural)]
pub struct TileSettings {
    pub cols: u16,
    pub rows: u16,
}

#[derive(Debug, Clone, Copy, PartialEq, Eq, Structural)]
pub struct RdpConfig {
    pub port: u16,
    /// Tiles that outputs are encoded by; without them each is one picture.
    pub tiles: Option<TileSettings>,
}

impl Default for VncConfig {
    fn default() -> (r: Self)
        ensures
            r.port == 5900,
    {
        VncConfig { port: 5900 }
    }
}

impl Default for RdpConfig {
    fn default() -> (r: Self)
        ensures
            r.port == 3389,
            r.tiles is None,
    {
        RdpConfig { port: 3389, tiles: None }
    }
}

impl Default for Config {
    fn default() -> (r: Self)
        ensures
            r.background is None,
            r.gap is None,
            r.layout is None,
            r.vnc.port == 5900,
            r.rdp.port == 3389,
            r.rdp.tiles is None,
    {
        Config {
            background: None,
            gap: None,
            layout: None,
            vnc: VncConfig::default(),
            rdp: RdpConfig::default(),
        }
    }
}

/// A relative path below a directory: one slash between the two, none below an empty directory.
pub open spec fn joined(base: Seq<char>, rest: Seq<char>) -> Seq<char> {
    if base.len() == 0 || base.last() == '/' {
        base + rest
    } else {
        base.push('/') + rest
    }
}

/// A relative path below a directory.
pub fn join_path(base: &str, rest: &str) -> (r: String)
    ensures
        r@ == joined(base@, rest@),
{
    let mut r = String::from_str(base);
    let n: usize = base.unicode_len();
    if n > 0 && base.get_char(n - 1) != '/' {
        r.append("/");
        proof {
            reveal_strlit("/");
            assert(r@ =~= base@.push('/'));
        }
    }
    r.append(rest);
    r
}

/// Where the configuration is looked for, in order: below the configuration directory, then below
/// the home directory. Without either, in the system's directory.
pub open spec fn config_locations(xdg: Option<Seq<char>>, home: Option<Seq<char>>) -> Seq<Seq<char>> {
    let below_xdg = match xdg {
        Some(dir) => seq![joined(dir, "desktopinator/config.toml"@)],
        None => Seq::empty(),
    };
    let below_home = match home {
        Some(dir) => seq![joined(dir, ".config/desktopinator/config.toml"@)],
        None => Seq::empty(),
    };
    if xdg is None && home is None {
        seq!["/etc/desktopinator/config.toml"@]
    } else {
        below_xdg + below_home
    }
}

/// Paths where the configuration file is looked for, in order, given `XDG_CONFIG_HOME` and `HOME`.
/// The first that exists counts.
pub fn config_paths(xdg: Option<&str>, home: Option<&str>) -> (r: Vec<String>)
    ensures
        r@.map_values(|s: String| s@) == config_locations(
            match xdg {
                Some(s) => Some(s@),
                None => None,
            },
            match home {
                Some(s) => Some(s@),
                None => None,
            },
        ),
{
    let mut r: Vec<String> = Vec::new();
    match xdg {
        Some(dir) => r.push(join_path(dir, "desktopinator/config.toml")),
        None => {},
    }
    match home {
        Some(dir) => r.push(join_path(dir, ".config/desktopinator/config.toml")),
        None => {},
    }
    if r.len() == 0 {
        r.push(String::from_str("/etc/desktopinator/config.toml"));
    }
    let ghost places = config_locations(
        match xdg {
            Some(s) => Some(s@),
            None => None,
        },
        match home {
            Some(s) => Some(s@),
            None => None,
        },
    );
    assert(r@.map_values(|s: String| s@) =~= places);
    r
}

/// The first place is where the configuration is at first looked for.
pub proof fn lemma_first_place(xdg: Option<Seq<char>>, home: Option<Seq<char>>)
    ensures
        config_locations(xdg, home).len() > 0,
        config_locations(xdg, home)[0] == config_location(xdg, home),
{
}

/// Where the configuration is at first: below the configuration directory, else below the home
/// directory, else in the system's directory.
pub open spec fn config_location(xdg: Option<Seq<char>>, home: Option<Seq<char>>) -> Seq<char> {
    match xdg {
        Some(dir) => joined(dir, "desktopinator/config.toml"@),
        None => match home {
            Some(dir) => joined(dir, ".config/desktopinator/config.toml"@),
            None => "/etc/desktopinator/config.toml"@,
        },
    }
}

/// First path of the configuration file, given `XDG_CONFIG_HOME` and `HOME`.
pub fn config_path(xdg: Option<&str>, home: Option<&str>) -> (r: String)
    ensures
        r@ == config_location(
            match xdg {
                Some(s) => Some(s@),
                None => None,
            },
            match home {
                Some(s) => Some(s@),
                None => None,
            },
        ),
{
    match xdg {
        Some(dir) => join_path(dir, "desktopinator/config.toml"),
        None => match home {
            Some(dir) => join_path(dir, ".config/desktopinator/config.toml"),
            None => String::from_str("/etc/desktopinator/config.toml"),
        },
    }
}

/// Where plugins are: below the configuration directory, else below the home directory, else below
/// the directory of temporary files.
pub open spec fn plugin_location(xdg: Option<Seq<char>>, home: Option<Seq<char>>) -> Seq<char> {
    let base = match xdg {
        Some(dir) => dir,
        None => joined(
            match home {
                Some(dir) => dir,
                None => "/tmp"@,
            },
            ".config"@,
        ),
    };
    joined(base, "desktopinator/plugins"@)
}

/// Path of the plugin directory, given `XDG_CONFIG_HOME` and `HOME`.
pub fn plugin_dir(xdg: Option<&str>, home: Option<&str>) -> (r: String)
    ensures
        r@ == plugin_location(
            match xdg {
                Some(s) => Some(s@),
                None => None,
            },
            match home {
                Some(s) => Some(s@),
                None => None,
            },
        ),
{
    let base = match xdg {
        Some(dir) => String::from_str(dir),
        None => match home {
            Some(dir) => join_path(dir, ".config"),
            None => join_path("/tmp", ".config"),
        },
    };
    join_path(base.as_str(), "desktopinator/plugins")
}

} // verus!
