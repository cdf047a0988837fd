//! The daemon's configuration model: per-feature sections, compatibility
//! overrides, and the resolution of textual key names into numeric input
//! key codes.
//!
//! Reading and deserialising the configuration file is the caller's
//! business; this module receives the plain values and finishes them.

use vstd::prelude::*;

use crate::Error;

verus! {

/// One scancode remap rule: events reporting `from` are rewritten to `to`.
#[derive(Clone, Copy, Debug, PartialEq, Eq, Structural)]
pub struct Remap {
    pub from: u32,
    pub to: u32,
}

/// Manual overrides for machines whose devices the discovery misjudges.
#[derive(Clone, Debug)]
pub struct CompatibilityConfig {
    pub hid_path_override: Option<String>,
    pub hid_id_override: Option<u32>,
    pub event_path_override: Option<String>,
}

/// The fn-lock feature: its watched key and the state applied at boot.
#[derive(Clone, Debug)]
pub struct FnLockConfig {
    pub enabled: bool,
    pub keycode: String,
    pub boot_default: String,
    pub keycode_enum: Option<u16>,
}

/// The keyboard-brightness-cycle feature and its watched key.
#[derive(Clone, Debug)]
pub struct KbBrightnessConfig {
    pub enabled: bool,
    pub keycode: String,
    pub keycode_enum: Option<u16>,
}

/// Disabling the keyboard backlight while the machine is in tablet mode.
#[derive(Clone, Copy, Debug, PartialEq, Eq, Structural)]
pub struct TabletKbBacklightDisableConfig {
    pub enabled: bool,
}

/// The kernel remap program: whether to install it, and its rule list.
#[derive(Clone, Debug)]
pub struct BpfConfig {
    pub enabled: bool,
    pub remaps: Vec<Remap>,
}

/// The whole configuration, read-only after startup.
#[derive(Clone, Debug)]
pub struct ConfigWrapper {
    pub compatibility: CompatibilityConfig,
    pub fnlock: FnLockConfig,
    pub bpf: BpfConfig,
    pub tablet_kb_backlight_disable: TabletKbBacklightDisableConfig,
    pub kb_brightness_cycle: KbBrightnessConfig,
}

impl ConfigWrapper {
    /// A configuration is well formed once every enabled feature that
    /// watches a key carries the resolved numeric code of that key.
    pub open spec fn wf(self) -> bool {
        &&& (self.fnlock.enabled ==> self.fnlock.keycode_enum is Some)
        &&& (self.kb_brightness_cycle.enabled ==> self.kb_brightness_cycle.keycode_enum is Some)
    }
}

/// The numeric code of an input key name (`KEY_PROG3` and the like), or
/// nothing for an unknown name.
pub uninterp spec fn key_code_of(name: Seq<char>) -> Option<u16>;

/// Relies on `evdev::KeyCode`'s `FromStr` implementation: the code of an
/// input key name is a fixed function of the name alone, given by the
/// crate's built-in name table.
#[verifier::external_body]
fn parse_key_name(name: &str) -> (r: Option<u16>)
    ensures
        r == key_code_of(name@),
{
    match name.parse::<evdev::KeyCode>() {
        Ok(k) => Some(k.code()),
        Err(_) => None,
    }
}

/// Resolves the key names of the enabled features into numeric codes.
///
/// Fails with `ParseError` when an enabled feature names an unknown key;
/// disabled features are left untouched. On success the configuration is
/// well formed and every other field is exactly the input's.
pub fn resolve_config(cfg: ConfigWrapper) -> (r: Result<ConfigWrapper, Error>)
    ensures
        r matches Ok(c) ==> {
            &&& c.wf()
            &&& c.compatibility == cfg.compatibility
            &&& c.bpf == cfg.bpf
            &&& c.tablet_kb_backlight_disable == cfg.tablet_kb_backlight_disable
            &&& c.fnlock.enabled == cfg.fnlock.enabled
            &&& c.fnlock.keycode == cfg.fnlock.keycode
            &&& c.fnlock.boot_default == cfg.fnlock.boot_default
            &&& c.kb_brightness_cycle.enabled == cfg.kb_brightness_cycle.enabled
            &&& c.kb_brightness_cycle.keycode == cfg.kb_brightness_cycle.keycode
            &&& c.fnlock.keycode_enum == (if cfg.fnlock.enabled {
                key_code_of(cfg.fnlock.keycode@)
            } else {
                cfg.fnlock.keycode_enum
            })
            &&& c.kb_brightness_cycle.keycode_enum == (if cfg.kb_brightness_cycle.enabled {
                key_code_of(cfg.kb_brightness_cycle.keycode@)
            } else {
                cfg.kb_brightness_cycle.keycode_enum
            })
        },
        r is Ok <==> {
            &&& (cfg.fnlock.enabled ==> key_code_of(cfg.fnlock.keycode@) is Some)
            &&& (cfg.kb_brightness_cycle.enabled ==> key_code_of(
                cfg.kb_brightness_cycle.keycode@,
            ) is Some)
        },
        r is Err ==> r == Err::<ConfigWrapper, Error>(Error::ParseError),
{
    let mut cfg = cfg;
    if cfg.kb_brightness_cycle.enabled {
        match parse_key_name(cfg.kb_brightness_cycle.keycode.as_str()) {
            Some(code) => {
                cfg.kb_brightness_cycle.keycode_enum = Some(code);
            },
            None => {
                return Err(Error::ParseError);
            },
        }
    }
    if cfg.fnlock.enabled {
        match parse_key_name(cfg.fnlock.keycode.as_str()) {
            Some(code) => {
                cfg.fnlock.keycode_enum = Some(code);
            },
            None => {
                return Err(Error::ParseError);
            },
        }
    }
    Ok(cfg)
}

/// The key codes that the dispatchers watch: the fn-lock key and the
/// brightness-cycle key, each present exactly when its feature is enabled
/// and resolved.
pub open spec fn watched_keycodes_spec(cfg: ConfigWrapper) -> Seq<u16> {
    (if cfg.fnlock.enabled && cfg.fnlock.keycode_enum is Some {
        seq![cfg.fnlock.keycode_enum->0]
    } else {
        Seq::empty()
    }) + (if cfg.kb_brightness_cycle.enabled && cfg.kb_brightness_cycle.keycode_enum is Some {
        seq![cfg.kb_brightness_cycle.keycode_enum->0]
    } else {
        Seq::empty()
    })
}

/// Collects the key codes the dispatchers have to watch for `cfg`.
pub fn watched_keycodes(cfg: &ConfigWrapper) -> (r: Vec<u16>)
    ensures
        r@ == watched_keycodes_spec(*cfg),
{
    let mut r: Vec<u16> = Vec::new();
    if cfg.fnlock.enabled {
        if let Some(code) = cfg.fnlock.keycode_enum {
            r.push(code);
        }
    }
    if cfg.kb_brightness_cycle.enabled {
        if let Some(code) = cfg.kb_brightness_cycle.keycode_enum {
            r.push(code);
        }
    }
    proof {
        assert(r@ =~= watched_keycodes_spec(*cfg));
    }
    r
}

} // verus!
