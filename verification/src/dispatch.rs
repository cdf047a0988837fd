//! The per-device dispatcher's decisions and the shared set of paths
//! under dispatch.
//!
//! A dispatcher task owns one device stream and feeds every raw event
//! through `dispatch_event`; the caller performs whatever the returned
//! actions name. The `ActivePathSet` records which paths have a live
//! dispatcher: the supervisor only ever adds to it, and only the
//! dispatcher that owns a path removes it, when its stream dies.

use vstd::prelude::*;

use crate::apkt_config::ConfigWrapper;

verus! {

/// The input-subsystem type number of key events.
pub const EV_TYPE_KEY: u16 = 0x01;

/// The input-subsystem type number of switch events.
pub const EV_TYPE_SWITCH: u16 = 0x05;

/// The switch code of the tablet-mode switch.
pub const SW_TABLET_MODE_CODE: u16 = 0x01;

/// One raw input event as a device stream reports it.
#[derive(Clone, Copy, Debug, PartialEq, Eq, Structural)]
pub struct InputEvent {
    pub event_type: u16,
    pub code: u16,
    pub value: i32,
}

/// What a dispatcher does in reaction to one event. Both key actions can
/// fire from a single event when both features watch the same key.
#[derive(Clone, Copy, Debug, PartialEq, Eq, Structural)]
pub struct Action {
    /// Cycle the keyboard backlight one step.
    pub cycle_brightness: bool,
    /// Toggle the shared fn-lock state, persist it, and send the report.
    pub toggle_fn_lock: bool,
    /// Tablet mode changed: `Some(true)` entered it, `Some(false)` left it.
    pub tablet_mode: Option<bool>,
}

/// Whether `ev` is the press of the key watched by the brightness-cycle
/// feature.
pub open spec fn is_cycle_press(cfg: ConfigWrapper, ev: InputEvent) -> bool {
    &&& ev.event_type == EV_TYPE_KEY
    &&& cfg.kb_brightness_cycle.enabled
    &&& cfg.kb_brightness_cycle.keycode_enum == Some(ev.code)
    &&& ev.value == 1
}

/// Whether `ev` is the press of the key watched by the fn-lock feature.
pub open spec fn is_fn_lock_press(cfg: ConfigWrapper, ev: InputEvent) -> bool {
    &&& ev.event_type == EV_TYPE_KEY
    &&& cfg.fnlock.enabled
    &&& cfg.fnlock.keycode_enum == Some(ev.code)
    &&& ev.value == 1
}

/// Whether `ev` is a tablet-mode switch transition the configuration
/// cares about.
pub open spec fn tablet_transition(cfg: ConfigWrapper, ev: InputEvent) -> Option<bool> {
    if ev.event_type == EV_TYPE_SWITCH && ev.code == SW_TABLET_MODE_CODE
        && cfg.tablet_kb_backlight_disable.enabled {
        Some(ev.value == 1)
    } else {
        None
    }
}

/// Decides what one raw event means under `cfg`: a watched key press
/// fires its bound action (value `1` only — releases and repeats do
/// nothing), and a tablet-mode switch fires the backlight transition.
/// Everything else is ignored.
pub fn dispatch_event(cfg: &ConfigWrapper, ev: InputEvent) -> (r: Action)
    requires
        cfg.wf(),
    ensures
        r.cycle_brightness == is_cycle_press(*cfg, ev),
        r.toggle_fn_lock == is_fn_lock_press(*cfg, ev),
        r.tablet_mode == tablet_transition(*cfg, ev),
{
    let mut r = Action { cycle_brightness: false, toggle_fn_lock: false, tablet_mode: None };
    if ev.event_type == EV_TYPE_KEY {
        if cfg.kb_brightness_cycle.enabled && ev.value == 1 {
            if let Some(code) = cfg.kb_brightness_cycle.keycode_enum {
                if code == ev.code {
                    r.cycle_brightness = true;
                }
            }
        }
        if cfg.fnlock.enabled && ev.value == 1 {
            if let Some(code) = cfg.fnlock.keycode_enum {
                if code == ev.code {
                    r.toggle_fn_lock = true;
                }
            }
        }
    } else if ev.event_type == EV_TYPE_SWITCH && ev.code == SW_TABLET_MODE_CODE
        && cfg.tablet_kb_backlight_disable.enabled {
        r.tablet_mode = Some(ev.value == 1);
    }
    r
}

/// Whether `p` is the text of one of `paths`.
pub open spec fn among_paths(paths: Seq<String>, p: Seq<char>) -> bool {
    exists|i: int| 0 <= i < paths.len() && #[trigger] paths[i]@ == p
}

/// The set of device paths that currently have a live dispatcher task.
///
/// Paths are held without duplicates; the view is the set of their
/// texts.
pub struct ActivePathSet {
    paths: Vec<String>,
}

impl ActivePathSet {
    /// No path occurs twice.
    pub closed spec fn wf(self) -> bool {
        forall|i: int, j: int| 0 <= i < j < self.paths@.len() ==> self.paths@[i]@ != self.paths@[j]@
    }

    pub closed spec fn view(self) -> Set<Seq<char>> {
        Set::new(|p: Seq<char>| exists|i: int| 0 <= i < self.paths@.len() && self.paths@[i]@ == p)
    }

    pub fn new() -> (r: ActivePathSet)
        ensures
            r.wf(),
            r@ == Set::<Seq<char>>::empty(),
    {
        let r = ActivePathSet { paths: Vec::new() };
        proof {
            assert(r@ =~= Set::<Seq<char>>::empty());
        }
        r
    }

    /// Whether `path` is under dispatch.
    pub fn contains(&self, path: &str) -> (r: bool)
        ensures
            r == self@.contains(path@),
    {
        let n = self.paths.len();
        let mut i: usize = 0;
        while i < n
            invariant
                n == self.paths@.len(),
                0 <= i <= n,
                forall|j: int| 0 <= j < i ==> self.paths@[j]@ != path@,
            decreases n - i,
        {
            if crate::state::str_eq(self.paths[i].as_str(), path) {
                return true;
            }
            i += 1;
        }
        proof {
            assert(!self@.contains(path@));
        }
        false
    }

    /// Marks `path` as under dispatch. Only the supervisor calls this,
    /// and only for a path it has just spawned a dispatcher for.
    pub fn insert(&mut self, path: String)
        requires
            old(self).wf(),
            !old(self)@.contains(path@),
        ensures
            final(self).wf(),
            final(self)@ == old(self)@.insert(path@),
    {
        self.paths.push(path);
        proof {
            assert forall|i: int, j: int| 0 <= i < j < self.paths@.len() implies self.paths@[i]@
                != self.paths@[j]@ by {
                if j < self.paths@.len() - 1 {
                    assert(old(self).paths@[i]@ != old(self).paths@[j]@);
                } else {
                    assert(old(self)@.contains(old(self).paths@[i]@));
                }
            }
            assert forall|p: Seq<char>| #[trigger] self@.contains(p) implies old(self)@.insert(
                path@,
            ).contains(p) by {
                let i = choose|i: int| 0 <= i < self.paths@.len() && self.paths@[i]@ == p;
                if i < self.paths@.len() - 1 {
                    assert(old(self).paths@[i]@ == p);
                }
            }
            assert forall|p: Seq<char>| old(self)@.insert(path@).contains(p) implies
                #[trigger] self@.contains(p) by {
                if p == path@ {
                    assert(self.paths@[self.paths@.len() - 1]@ == p);
                } else {
                    let i = choose|i: int|
                        0 <= i < old(self).paths@.len() && old(self).paths@[i]@ == p;
                    assert(self.paths@[i]@ == p);
                }
            }
            assert(final(self)@ =~= old(self)@.insert(path@));
        }
    }

    /// Drops `path`. Only the dispatcher that owns `path` calls this,
    /// when its event stream has died.
    pub fn remove(&mut self, path: &str)
        requires
            old(self).wf(),
        ensures
            final(self).wf(),
            final(self)@ == old(self)@.remove(path@),
    {
        let n = self.paths.len();
        let mut i: usize = 0;
        while i < n
            invariant
                n == self.paths@.len(),
                0 <= i <= n,
                *self == *old(self),
                old(self).wf(),
                forall|j: int| 0 <= j < i ==> self.paths@[j]@ != path@,
            decreases n - i,
        {
            if crate::state::str_eq(self.paths[i].as_str(), path) {
                self.paths.remove(i);
                proof {
                    let s_old = old(self).paths@;
                    assert(self.paths@ =~= s_old.subrange(0, i as int) + s_old.subrange(
                        i + 1,
                        s_old.len() as int,
                    ));
                    assert forall|a: int, b: int|
                        0 <= a < b < self.paths@.len() implies self.paths@[a]@
                        != self.paths@[b]@ by {
                        let a0 = if a < i { a } else { a + 1 };
                        let b0 = if b < i { b } else { b + 1 };
                        assert(self.paths@[a] == s_old[a0]);
                        assert(self.paths@[b] == s_old[b0]);
                        assert(s_old[a0]@ != s_old[b0]@);
                    }
                    assert forall|p: Seq<char>| #[trigger] self@.contains(p) implies old(
                        self,
                    )@.remove(path@).contains(p) by {
                        let a = choose|a: int| 0 <= a < self.paths@.len() && self.paths@[a]@ == p;
                        let a0 = if a < i { a } else { a + 1 };
                        assert(s_old[a0]@ == p);
                        assert(p != path@) by {
                            if a0 != i {
                                assert(s_old[a0]@ != s_old[i as int]@);
                            }
                        }
                    }
                    assert forall|p: Seq<char>| old(self)@.remove(path@).contains(p) implies
                        #[trigger] self@.contains(p) by {
                        let a0 = choose|a0: int| 0 <= a0 < s_old.len() && s_old[a0]@ == p;
                        assert(a0 != i);
                        let a = if a0 < i { a0 } else { a0 - 1 };
                        assert(self.paths@[a]@ == p);
                    }
                    assert(self@ =~= old(self)@.remove(path@));
                }
                return ;
            }
            i += 1;
        }
        proof {
            assert(!self@.contains(path@));
            assert(self@ =~= old(self)@.remove(path@));
        }
    }

    /// One supervisor round: marks every newly discovered path and says
    /// which of them need a dispatcher spawned. Existing paths are never
    /// removed — a path that vanished from discovery stays until its own
    /// dispatcher observes the stream die and removes it, so membership
    /// lags physical presence and is never ahead of it.
    pub fn supervisor_step(&mut self, discovered: &Vec<String>) -> (spawn: Vec<String>)
        requires
            old(self).wf(),
        ensures
            final(self).wf(),
            // nothing is ever removed by the supervisor
            forall|p: Seq<char>| old(self)@.contains(p) ==> final(self)@.contains(p),
            // afterwards: exactly the old set plus everything discovered
            forall|p: Seq<char>|
                final(self)@.contains(p) <==> old(self)@.contains(p) || among_paths(discovered@, p),
            // spawned: the discovered paths that were not yet active, once each
            forall|k: int|
                0 <= k < spawn@.len() ==> !old(self)@.contains(#[trigger] spawn@[k]@)
                    && among_paths(discovered@, spawn@[k]@),
            forall|i: int|
                0 <= i < discovered@.len() && !old(self)@.contains(#[trigger] discovered@[i]@)
                    ==> among_paths(spawn@, discovered@[i]@),
            forall|k1: int, k2: int| 0 <= k1 < k2 < spawn@.len() ==> spawn@[k1]@ != spawn@[k2]@,
    {
        let n = discovered.len();
        let mut spawn: Vec<String> = Vec::new();
        let mut i: usize = 0;
        while i < n
            invariant
                n == discovered@.len(),
                0 <= i <= n,
                self.wf(),
                forall|p: Seq<char>| old(self)@.contains(p) ==> self@.contains(p),
                forall|p: Seq<char>|
                    self@.contains(p) <==> old(self)@.contains(p) || among_paths(
                        discovered@.take(i as int),
                        p,
                    ),
                forall|k: int|
                    0 <= k < spawn@.len() ==> !old(self)@.contains(#[trigger] spawn@[k]@)
                        && among_paths(discovered@.take(i as int), spawn@[k]@),
                forall|j: int|
                    0 <= j < i && !old(self)@.contains(#[trigger] discovered@[j]@)
                        ==> among_paths(spawn@, discovered@[j]@),
                forall|k: int| 0 <= k < spawn@.len() ==> self@.contains(#[trigger] spawn@[k]@),
                forall|k1: int, k2: int| 0 <= k1 < k2 < spawn@.len() ==> spawn@[k1]@ != spawn@[k2]@,
            decreases n - i,
        {
            let ghost spawn0 = spawn@;
            let ghost self0 = *self;
            let path = &discovered[i];
            let mut added = false;
            if !self.contains(path.as_str()) {
                self.insert(path.clone());
                spawn.push(path.clone());
                added = true;
            }
            proof {
                let d = discovered@[i as int];
                let taken = discovered@.take(i as int);
                let taken1 = discovered@.take(i + 1);
                assert(taken1.drop_last() =~= taken);
                assert(taken1[i as int] == d);
                assert forall|p: Seq<char>| among_paths(taken, p) implies among_paths(
                    taken1,
                    p,
                ) by {
                    let j = choose|j: int| 0 <= j < taken.len() && #[trigger] taken[j]@ == p;
                    assert(taken1[j]@ == p);
                }
                assert(among_paths(taken1, d@));
                if added {
                    assert(spawn@ =~= spawn0.push(d));
                    assert(self@ =~= self0@.insert(d@));
                    assert forall|k: int| 0 <= k < spawn@.len() implies !old(self)@.contains(
                        #[trigger] spawn@[k]@,
                    ) && among_paths(taken1, spawn@[k]@) by {
                        if k < spawn0.len() {
                            assert(spawn@[k] == spawn0[k]);
                        } else {
                            assert(spawn@[k] == d);
                        }
                    }
                    assert forall|j: int|
                        0 <= j < i + 1 && !old(self)@.contains(#[trigger] discovered@[j]@) implies
                        among_paths(spawn@, discovered@[j]@) by {
                        if j < i {
                            let k = choose|k: int|
                                0 <= k < spawn0.len() && #[trigger] spawn0[k]@ == discovered@[j]@;
                            assert(spawn@[k]@ == discovered@[j]@);
                        } else {
                            assert(spawn@[spawn@.len() - 1]@ == discovered@[j]@);
                        }
                    }
                    assert forall|k1: int, k2: int|
                        0 <= k1 < k2 < spawn@.len() implies spawn@[k1]@ != spawn@[k2]@ by {
                        if k2 < spawn0.len() {
                            assert(spawn@[k1] == spawn0[k1]);
                            assert(spawn@[k2] == spawn0[k2]);
                        } else {
                            assert(spawn@[k1] == spawn0[k1]);
                            assert(spawn@[k2]@ == d@);
                            assert(self0@.contains(spawn0[k1]@));
                            assert(!self0@.contains(d@));
                        }
                    }
                    assert forall|p: Seq<char>| #[trigger] self@.contains(p) implies old(
                        self,
                    )@.contains(p) || among_paths(taken1, p) by {
                        if p != d@ {
                            assert(self0@.contains(p));
                        }
                    }
                    assert forall|k: int| 0 <= k < spawn@.len() implies self@.contains(
                        #[trigger] spawn@[k]@,
                    ) by {
                        if k < spawn0.len() {
                            assert(spawn@[k] == spawn0[k]);
                            assert(self0@.contains(spawn0[k]@));
                        } else {
                            assert(spawn@[k]@ == d@);
                        }
                    }
                } else {
                    assert(self@.contains(d@));
                    assert forall|p: Seq<char>| among_paths(taken1, p) implies #[trigger] self@.contains(
                        p,
                    ) || old(self)@.contains(p) by {
                        let j = choose|j: int| 0 <= j < taken1.len() && #[trigger] taken1[j]@ == p;
                        if j < i {
                            assert(taken[j]@ == p);
                        } else {
                            assert(p == d@);
                        }
                    }
                }
            }
            i += 1;
        }
        proof {
            assert(discovered@.take(i as int) =~= discovered@);
        }
        spawn
    }
}

} // verus!
