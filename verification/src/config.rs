//! A compact, self-contained configuration: the built-in defaults of the
//! daemon, expressed over single-byte scancodes.

use vstd::prelude::*;

verus! {

/// One scancode remap rule over single-byte scancodes.
#[derive(Clone, Copy, Debug, PartialEq, Eq, Structural)]
pub struct Remap {
    pub from: u8,
    pub to: u8,
}

/// What fn-lock state the daemon applies at boot.
#[derive(Clone, Copy, Debug, PartialEq, Eq, Structural)]
pub enum FnLockDefault {
    On,
    Off,
    Preserve,
}

/// The compact configuration form.
#[derive(Clone, Debug)]
pub struct Config {
    pub bpf_enabled: bool,
    pub bpf_remaps: Vec<Remap>,
    pub fn_lock_enabled: bool,
    pub fn_lock_keycode: u8,
    pub fn_lock_default: FnLockDefault,
    pub kb_enabled: bool,
    pub kb_keycode: u8,
}

/// The built-in defaults: every feature on, the fn-lock key remapped to
/// a programmable key, the launcher keys remapped likewise, and the
/// persisted fn-lock state restored at boot.
pub fn load_config() -> (r: Config)
    ensures
        r.bpf_enabled,
        r.bpf_remaps@.len() == 3,
        r.bpf_remaps@[0] == (Remap { from: 0x4e, to: 0x5c }),
        r.bpf_remaps@[1] == (Remap { from: 0x7e, to: 0xba }),
        r.bpf_remaps@[2] == (Remap { from: 0x8b, to: 0x38 }),
        r.fn_lock_enabled,
        r.fn_lock_keycode == 0x4e,
        r.fn_lock_default == FnLockDefault::Preserve,
        r.kb_enabled,
        r.kb_keycode == 0x3a,
{
    let mut bpf_remaps: Vec<Remap> = Vec::new();
    bpf_remaps.push(Remap { from: 0x4e, to: 0x5c });
    bpf_remaps.push(Remap { from: 0x7e, to: 0xba });
    bpf_remaps.push(Remap { from: 0x8b, to: 0x38 });
    Config {
        bpf_enabled: true,
        bpf_remaps,
        fn_lock_enabled: true,
        fn_lock_keycode: 0x4e,
        fn_lock_default: FnLockDefault::Preserve,
        kb_enabled: true,
        kb_keycode: 0x3a,
    }
}

} // verus!
