//! The compositor's command line.

use crate::config::Config;
use crate::ipc::parse::{parse_resolution, resolution};
use crate::text::{parse_unsigned, same, unsigned_value};
use vstd::prelude::*;
use vstd::string::*;

verus! {

/// Which screen the compositor runs on.
#[derive(Debug, Clone, Copy, PartialEq, Eq, Structural)]
pub enum Backend {
    /// The hardware.
    Drm,
    /// None: remote clients only.
    Headless,
    /// A window of another compositor.
    Window,
}

/// What the command line asks for.
#[derive(Debug)]
pub struct Options {
    pub backend: Backend,
    pub vnc_port: u16,
    pub rdp_port: u16,
    pub width: u16,
    pub height: u16,
    /// Preferred encoder.
    pub encoder: String,
    /// Exit after the first RDP client disconnects.
    pub one_shot: bool,
    /// Frames per second.
    pub fps: u32,
}

/// One of the arguments is the word.
pub open spec fn has_word(args: Seq<String>, word: Seq<char>) -> bool {
    exists|i: int| 0 <= i < args.len() && (#[trigger] args[i])@ == word
}

/// Argument `i` is the first one that is the word and has another behind it.
pub open spec fn option_at(args: Seq<String>, word: Seq<char>, i: int) -> bool {
    &&& 0 <= i < args.len() - 1
    &&& args[i]@ == word
    &&& forall|j: int| 0 <= j < i ==> (#[trigger] args[j])@ != word
}

/// What stands behind the first word of this kind that has something behind it.
pub open spec fn option_value(args: Seq<String>, word: Seq<char>) -> Option<Seq<char>> {
    if exists|i: int| option_at(args, word, i) {
        Some(args[(choose|i: int| option_at(args, word, i)) + 1]@)
    } else {
        None
    }
}

/// A number behind a word, else a default.
pub open spec fn number_or(value: Option<Seq<char>>, max: nat, default: int) -> int {
    match value {
        Some(text) => match unsigned_value(text, max) {
            Some(n) => n as int,
            None => default,
        },
        None => default,
    }
}

/// A resolution behind a word, else the default one.
pub open spec fn resolution_or_default(value: Option<Seq<char>>) -> (u16, u16) {
    match value {
        Some(text) => match resolution(text) {
            Ok(r) => r,
            Err(_) => (1920, 1080),
        },
        None => (1920, 1080),
    }
}

fn is_given(args: &[String], word: &str) -> (r: bool)
    ensures
        r == has_word(args@, word@),
{
    let mut i: usize = 0;
    while i < args.len()
        invariant
            i <= args@.len(),
            forall|j: int| 0 <= j < i ==> (#[trigger] args@[j])@ != word@,
        decreases args@.len() - i,
    {
        if same(args[i].as_str(), word) {
            assert(args@[i as int]@ == word@);
            return true;
        }
        i = i + 1;
    }
    false
}

/// There is at most one first place.
proof fn lemma_option_at_unique(args: Seq<String>, word: Seq<char>, i: int, k: int)
    requires
        option_at(args, word, i),
        option_at(args, word, k),
    ensures
        i == k,
{
    if i < k {
        assert(args[i]@ != word);
    } else if k < i {
        assert(args[k]@ != word);
    }
}

fn find_option<'a>(args: &'a [String], word: &str) -> (r: Option<&'a str>)
    ensures
        match r {
            Some(text) => option_value(args@, word@) == Some(text@),
            None => option_value(args@, word@) is None,
        },
{
    let mut i: usize = 0;
    while i < args.len() && args.len() - i > 1
        invariant
            i <= args@.len(),
            forall|j: int| 0 <= j < i ==> (#[trigger] args@[j])@ != word@,
        decreases args@.len() - i,
    {
        if same(args[i].as_str(), word) {
            proof {
                assert(option_at(args@, word@, i as int));
                let k = choose|k: int| option_at(args@, word@, k);
                lemma_option_at_unique(args@, word@, i as int, k);
            }
            return Some(args[i + 1].as_str());
        }
        i = i + 1;
    }
    assert forall|k: int| !option_at(args@, word@, k) by {
        if option_at(args@, word@, k) {
            assert(args@[k]@ != word@);
        }
    }
    None
}

fn number_option(args: &[String], word: &str, max: u64, default: u64) -> (r: u64)
    ensures
        r == number_or(option_value(args@, word@), max as nat, default as int),
        r <= max || r == default,
{
    match find_option(args, word) {
        Some(text) => match parse_unsigned(text, max) {
            Some(n) => n,
            None => default,
        },
        None => default,
    }
}

/// Reads the command line. Ports come from the configuration where the command line has none, and
/// what cannot be read counts as not given.
pub fn parse_args(args: &[String], config: &Config) -> (r: Options)
    ensures
        r.backend == (if has_word(args@, "--drm"@) {
            Backend::Drm
        } else if has_word(args@, "--headless"@) {
            Backend::Headless
        } else {
            Backend::Window
        }),
        r.vnc_port == number_or(
            option_value(args@, "--vnc-port"@),
            u16::MAX as nat,
            config.vnc.port as int,
        ),
        r.rdp_port == number_or(
            option_value(args@, "--rdp-port"@),
            u16::MAX as nat,
            config.rdp.port as int,
        ),
        (r.width, r.height) == resolution_or_default(option_value(args@, "--resolution"@)),
        r.encoder@ == (match option_value(args@, "--encoder"@) {
            Some(name) => name,
            None => "auto"@,
        }),
        r.one_shot == has_word(args@, "--one-shot"@),
        r.fps == number_or(option_value(args@, "--fps"@), u32::MAX as nat, 60),
{
    let backend = if is_given(args, "--drm") {
        Backend::Drm
    } else if is_given(args, "--headless") {
        Backend::Headless
    } else {
        Backend::Window
    };
    let vnc_port: u64 = number_option(args, "--vnc-port", u16::MAX as u64, config.vnc.port as u64);
    let rdp_port: u64 = number_option(args, "--rdp-port", u16::MAX as u64, config.rdp.port as u64);
    let (width, height) = match find_option(args, "--resolution") {
        Some(text) => match parse_resolution(text) {
            Ok(r) => r,
            Err(_) => (1920, 1080),
        },
        None => (1920, 1080),
    };
    let encoder = match find_option(args, "--encoder") {
        Some(name) => String::from_str(name),
        None => String::from_str("auto"),
    };
    let one_shot = is_given(args, "--one-shot");
    let fps: u64 = number_option(args, "--fps", u32::MAX as u64, 60);
    Options {
        backend,
        vnc_port: vnc_port as u16,
        rdp_port: rdp_port as u16,
        width,
        height,
        encoder,
        one_shot,
        fps: fps as u32,
    }
}

} // verus!
