//! Key bindings: the compositor's own and those of plugins.

use crate::compositor::state::PluginKeybinding;
use crate::input::codes::Modifiers;
use vstd::prelude::*;

verus! {

/// What a key binding does.
#[derive(Debug)]
pub enum KeyAction {
    LaunchTerminal,
    LaunchLauncher,
    CloseWindow,
    FocusNext,
    FocusPrev,
    SwapMaster,
    MasterGrow,
    MasterShrink,
    ToggleFullscreen,
    ToggleFloat,
    CycleLayoutForward,
    CycleLayoutBackward,
    ResolutionUp,
    ResolutionDown,
    FocusOutputLeft,
    FocusOutputRight,
    MoveToOutputLeft,
    MoveToOutputRight,
    Quit,
    PluginCallback(String),
    SwitchWorkspace(usize),
    MoveToWorkspace(usize),
}

/// What becomes of a key event.
#[derive(Debug)]
pub enum KeyFilter {
    /// The focused window gets it.
    Forward,
    /// The compositor keeps it, and may act on it.
    Intercept(Option<KeyAction>),
}

/// Where key events come from.
#[derive(Debug, Clone, Copy, PartialEq, Eq, Structural)]
pub enum KeySource {
    /// A keyboard of this machine.
    Local,
    /// A remote client, whose bindings are more.
    Remote,
}

/// The workspace of a digit key, with and without shift.
pub open spec fn workspace_of(sym: u32) -> Option<usize> {
    match sym {
        // 1 and !
        0x31 | 0x21 => Some(1),
        // 2 and @
        0x32 | 0x40 => Some(2),
        // 3 and #
        0x33 | 0x23 => Some(3),
        // 4 and $
        0x34 | 0x24 => Some(4),
        // 5 and %
        0x35 | 0x25 => Some(5),
        // 6 and ^
        0x36 | 0x5e => Some(6),
        // 7 and &
        0x37 | 0x26 => Some(7),
        // 8 and *
        0x38 | 0x2a => Some(8),
        // 9 and (
        0x39 | 0x28 => Some(9),
        _ => None,
    }
}

/// Map number keysyms (both shifted and unshifted) to workspace numbers 1-9.
pub fn keysym_to_workspace(sym: u32) -> (r: Option<usize>)
    ensures
        r == workspace_of(sym),
{
    match sym {
        0x31 | 0x21 => Some(1),
        0x32 | 0x40 => Some(2),
        0x33 | 0x23 => Some(3),
        0x34 | 0x24 => Some(4),
        0x35 | 0x25 => Some(5),
        0x36 | 0x5e => Some(6),
        0x37 | 0x26 => Some(7),
        0x38 | 0x2a => Some(8),
        0x39 | 0x28 => Some(9),
        _ => None,
    }
}

/// What Alt and a key do.
pub open spec fn bound_action(source: KeySource, sym: u32) -> Option<KeyAction> {
    match sym {
        // Return
        0xff0d => Some(KeyAction::LaunchTerminal),
        // d
        0x64 => Some(KeyAction::LaunchLauncher),
        // q
        0x71 => Some(KeyAction::CloseWindow),
        // Q
        0x51 => Some(KeyAction::Quit),
        // j
        0x6a => Some(KeyAction::FocusNext),
        // k
        0x6b => Some(KeyAction::FocusPrev),
        // space
        0x20 => Some(KeyAction::SwapMaster),
        _ => match source {
            KeySource::Local => None,
            KeySource::Remote => remote_action(sym),
        },
    }
}

/// What Alt and a key do on a remote client only.
pub open spec fn remote_action(sym: u32) -> Option<KeyAction> {
    match sym {
        // h
        0x68 => Some(KeyAction::MasterShrink),
        // l
        0x6c => Some(KeyAction::MasterGrow),
        // f
        0x66 => Some(KeyAction::ToggleFullscreen),
        // v
        0x76 => Some(KeyAction::ToggleFloat),
        // m
        0x6d => Some(KeyAction::CycleLayoutForward),
        // M
        0x4d => Some(KeyAction::CycleLayoutBackward),
        // + and =
        0x2b | 0x3d => Some(KeyAction::ResolutionUp),
        // -
        0x2d => Some(KeyAction::ResolutionDown),
        // ,
        0x2c => Some(KeyAction::FocusOutputLeft),
        // .
        0x2e => Some(KeyAction::FocusOutputRight),
        // <
        0x3c => Some(KeyAction::MoveToOutputLeft),
        // >
        0x3e => Some(KeyAction::MoveToOutputRight),
        _ => None,
    }
}

fn builtin_action(source: KeySource, sym: u32) -> (r: Option<KeyAction>)
    ensures
        r == bound_action(source, sym),
{
    match sym {
        0xff0d => Some(KeyAction::LaunchTerminal),
        0x64 => Some(KeyAction::LaunchLauncher),
        0x71 => Some(KeyAction::CloseWindow),
        0x51 => Some(KeyAction::Quit),
        0x6a => Some(KeyAction::FocusNext),
        0x6b => Some(KeyAction::FocusPrev),
        0x20 => Some(KeyAction::SwapMaster),
        _ => match source {
            KeySource::Local => None,
            KeySource::Remote => match sym {
                0x68 => Some(KeyAction::MasterShrink),
                0x6c => Some(KeyAction::MasterGrow),
                0x66 => Some(KeyAction::ToggleFullscreen),
                0x76 => Some(KeyAction::ToggleFloat),
                0x6d => Some(KeyAction::CycleLayoutForward),
                0x4d => Some(KeyAction::CycleLayoutBackward),
                0x2b | 0x3d => Some(KeyAction::ResolutionUp),
                0x2d => Some(KeyAction::ResolutionDown),
                0x2c => Some(KeyAction::FocusOutputLeft),
                0x2e => Some(KeyAction::FocusOutputRight),
                0x3c => Some(KeyAction::MoveToOutputLeft),
                0x3e => Some(KeyAction::MoveToOutputRight),
                _ => None,
            },
        },
    }
}

/// A plugin's binding is for this key with exactly these modifiers.
pub open spec fn binding_matches(b: PluginKeybinding, mods: Modifiers, sym: u32) -> bool {
    &&& b.keysym == sym
    &&& b.alt == mods.alt
    &&& b.ctrl == mods.ctrl
    &&& b.shift == mods.shift
    &&& b.logo == mods.logo
}

/// Binding `i` is the first for the key.
pub open spec fn is_first_binding(
    bindings: Seq<PluginKeybinding>,
    mods: Modifiers,
    sym: u32,
    i: int,
) -> bool {
    &&& 0 <= i < bindings.len()
    &&& binding_matches(bindings[i], mods, sym)
    &&& forall|j: int| 0 <= j < i ==> !binding_matches(#[trigger] bindings[j], mods, sym)
}

/// The compositor's own binding for a key: Alt and a digit for the workspaces, Alt and a letter
/// for the rest.
pub open spec fn own_binding(source: KeySource, mods: Modifiers, sym: u32) -> Option<KeyAction> {
    if !mods.alt {
        None
    } else {
        match workspace_of(sym) {
            Some(n) => Some(
                if mods.shift {
                    KeyAction::MoveToWorkspace(n)
                } else {
                    KeyAction::SwitchWorkspace(n)
                },
            ),
            None => bound_action(source, sym),
        }
    }
}

/// A bound key acts when it is pressed, and is kept when it is released.
pub open spec fn kept(action: KeyAction, pressed: bool) -> KeyFilter {
    KeyFilter::Intercept(
        if pressed {
            Some(action)
        } else {
            None
        },
    )
}

/// What becomes of a key event: the compositor's own bindings first, then those of plugins in
/// their order, and all other keys go to the window.
pub open spec fn filtered(
    source: KeySource,
    bindings: Seq<PluginKeybinding>,
    mods: Modifiers,
    sym: u32,
    pressed: bool,
    r: KeyFilter,
) -> bool {
    match own_binding(source, mods, sym) {
        Some(action) => r == kept(action, pressed),
        None => {
            ||| exists|i: int| #[trigger]
                is_first_binding(bindings, mods, sym, i) && r == kept(
                    KeyAction::PluginCallback(bindings[i].callback_id),
                    pressed,
                )
            ||| r is Forward && forall|i: int|
                0 <= i < bindings.len() ==> !binding_matches(#[trigger] bindings[i], mods, sym)
        },
    }
}

/// Decides what becomes of a key event.
pub fn filter_key(
    source: KeySource,
    bindings: &[PluginKeybinding],
    mods: Modifiers,
    sym: u32,
    pressed: bool,
) -> (r: KeyFilter)
    ensures
        filtered(source, bindings@, mods, sym, pressed, r),
{
    if mods.alt {
        match keysym_to_workspace(sym) {
            Some(n) => {
                let action = if mods.shift {
                    KeyAction::MoveToWorkspace(n)
                } else {
                    KeyAction::SwitchWorkspace(n)
                };
                return KeyFilter::Intercept(
                    if pressed {
                        Some(action)
                    } else {
                        None
                    },
                );
            },
            None => {},
        }
        match builtin_action(source, sym) {
            Some(action) => {
                return KeyFilter::Intercept(
                    if pressed {
                        Some(action)
                    } else {
                        None
                    },
                );
            },
            None => {},
        }
    }
    let mut i: usize = 0;
    while i < bindings.len()
        invariant
            i <= bindings@.len(),
            own_binding(source, mods, sym) is None,
            forall|j: int| 0 <= j < i ==> !binding_matches(#[trigger] bindings@[j], mods, sym),
        decreases bindings@.len() - i,
    {
        let b = &bindings[i];
        if b.keysym == sym && b.alt == mods.alt && b.ctrl == mods.ctrl && b.shift == mods.shift
            && b.logo == mods.logo {
            assert(is_first_binding(bindings@, mods, sym, i as int));
            return KeyFilter::Intercept(
                if pressed {
                    Some(KeyAction::PluginCallback(b.callback_id.clone()))
                } else {
                    None
                },
            );
        }
        i = i + 1;
    }
    KeyFilter::Forward
}

/// A key whose press the compositor keeps is kept when it is released, and the other way round, so
/// that no window sees half of a key. Only a press acts.
pub proof fn lemma_keys_are_kept_whole(
    source: KeySource,
    bindings: Seq<PluginKeybinding>,
    mods: Modifiers,
    sym: u32,
    down: KeyFilter,
    up: KeyFilter,
)
    requires
        filtered(source, bindings, mods, sym, true, down),
        filtered(source, bindings, mods, sym, false, up),
    ensures
        down is Forward <==> up is Forward,
        down matches KeyFilter::Intercept(action) ==> action is Some,
        up matches KeyFilter::Intercept(action) ==> action is None,
{
}

/// Without Alt, the compositor's own bindings keep no key.
pub proof fn lemma_own_bindings_need_alt(source: KeySource, mods: Modifiers, sym: u32)
    requires
        !mods.alt,
    ensures
        own_binding(source, mods, sym) is None,
{
}

} // verus!
