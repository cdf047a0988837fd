//! The logical fn-lock state, its toggle discipline, and the textual form
//! in which it is persisted.
//!
//! The daemon holds one `FnLockState` behind an exclusive lock; every
//! toggle is a serialized read-modify-write, so a run of presses from any
//! mix of devices lands as one toggle each.

use vstd::prelude::*;
use vstd::string::StringSliceAdditionalSpecFns;

use crate::Error;

verus! {

/// The logical fn-lock state shared by all dispatcher tasks.
#[derive(Clone, Copy, Debug, PartialEq, Eq, Structural)]
pub struct FnLockState {
    pub on: bool,
}

impl FnLockState {
    pub fn new(on: bool) -> (r: FnLockState)
        ensures
            r.on == on,
    {
        FnLockState { on }
    }

    /// One watched key press: the state flips.
    pub fn toggle(&mut self)
        ensures
            final(self).on == !old(self).on,
    {
        self.on = !self.on;
    }
}

/// The state after `presses` serialized toggles from `init`.
pub open spec fn toggled(init: bool, presses: nat) -> bool
    decreases presses,
{
    if presses == 0 {
        init
    } else {
        !toggled(init, (presses - 1) as nat)
    }
}

/// However many devices report presses, as long as each press lands as
/// one serialized toggle, the final state is the initial state XOR the
/// parity of the total number of presses: no press is lost and none
/// counts twice.
pub proof fn lemma_toggle_parity(init: bool, presses: nat)
    ensures
        toggled(init, presses) == (init != (presses % 2 == 1)),
    decreases presses,
{
    if presses > 0 {
        lemma_toggle_parity(init, (presses - 1) as nat);
    }
}

/// The persisted form of a state: `1` for on, `0` for off.
pub fn encode_state(on: bool) -> (r: &'static str)
    ensures
        on ==> r@ == "1"@,
        !on ==> r@ == "0"@,
{
    if on {
        "1"
    } else {
        "0"
    }
}

/// An ASCII whitespace byte: space, tab, line feed or carriage return.
pub open spec fn is_ws(b: u8) -> bool {
    b == 32 || b == 9 || b == 10 || b == 13
}

/// `bytes` without its leading whitespace.
pub open spec fn trim_front(bytes: Seq<u8>) -> Seq<u8>
    decreases bytes.len(),
{
    if bytes.len() > 0 && is_ws(bytes.first()) {
        trim_front(bytes.drop_first())
    } else {
        bytes
    }
}

/// `bytes` without its trailing whitespace.
pub open spec fn trim_back(bytes: Seq<u8>) -> Seq<u8>
    decreases bytes.len(),
{
    if bytes.len() > 0 && is_ws(bytes.last()) {
        trim_back(bytes.drop_last())
    } else {
        bytes
    }
}

/// Whether stored contents denote the on state: the bytes are exactly a
/// `1` once surrounding whitespace is dropped.
pub open spec fn denotes_on(bytes: Seq<u8>) -> bool {
    trim_back(trim_front(bytes)) == seq![49u8]
}

/// Reads the persisted state back. Absent contents — a missing or
/// unreadable store — and anything that is not a `1` under surrounding
/// whitespace count as off; only a stored on state restores as on.
pub fn decode_state(contents: Option<&str>) -> (r: bool)
    ensures
        r == match contents {
            Some(s) => denotes_on(s.spec_bytes()),
            None => false,
        },
{
    let s = match contents {
        Some(s) => s,
        None => {
            return false;
        },
    };
    let bytes = s.as_bytes();
    let n = bytes.len();
    proof {
        assert(bytes@.skip(0) =~= bytes@);
    }
    let mut lo: usize = 0;
    while lo < n && is_ws_byte(bytes[lo])
        invariant
            n == bytes@.len(),
            0 <= lo <= n,
            trim_front(bytes@) == trim_front(bytes@.skip(lo as int)),
        decreases n - lo,
    {
        proof {
            assert(bytes@.skip(lo as int).drop_first() =~= bytes@.skip(lo + 1));
        }
        lo += 1;
    }
    proof {
        assert(bytes@.skip(lo as int).len() > 0 ==> bytes@.skip(lo as int).first() == bytes@[
            lo as int
        ]);
        assert(trim_front(bytes@) == bytes@.skip(lo as int));
    }
    let mut hi: usize = n;
    proof {
        assert(bytes@.skip(lo as int).take(n - lo as int) =~= bytes@.skip(lo as int));
    }
    while hi > lo && is_ws_byte(bytes[hi - 1])
        invariant
            n == bytes@.len(),
            0 <= lo <= hi <= n,
            trim_front(bytes@) == bytes@.skip(lo as int),
            trim_back(bytes@.skip(lo as int)) == trim_back(
                bytes@.skip(lo as int).take(hi - lo as int),
            ),
        decreases hi,
    {
        proof {
            assert(bytes@.skip(lo as int).take(hi - lo as int).last() == bytes@[hi - 1]);
            assert(bytes@.skip(lo as int).take(hi - lo as int).drop_last() =~= bytes@.skip(
                lo as int,
            ).take(hi - 1 - lo as int));
        }
        hi -= 1;
    }
    proof {
        let t = bytes@.skip(lo as int).take(hi - lo as int);
        assert(t.len() > 0 ==> t.last() == bytes@[hi - 1]);
        assert(trim_back(bytes@.skip(lo as int)) == t);
    }
    if hi - lo == 1 && bytes[lo] == 49 {
        proof {
            assert(bytes@.skip(lo as int).take(1) =~= seq![49u8]);
        }
        true
    } else {
        proof {
            assert(bytes@.skip(lo as int).take(hi - lo as int) != seq![49u8]) by {
                let t = bytes@.skip(lo as int).take(hi - lo as int);
                if t == seq![49u8] {
                    assert(t.len() == 1);
                    assert(t[0] == bytes@[lo as int]);
                }
            }
        }
        false
    }
}

/// Executable twin of `is_ws`.
fn is_ws_byte(b: u8) -> (r: bool)
    ensures
        r == is_ws(b),
{
    b == 32 || b == 9 || b == 10 || b == 13
}

/// The state the daemon applies at boot under policy `boot_default`:
/// `on` and `off` force that state, `last` restores the persisted one,
/// and any other policy text is rejected.
pub fn initial_state(boot_default: &str, persisted: bool) -> (r: Result<bool, Error>)
    ensures
        boot_default@ == "on"@ ==> r == Ok::<bool, Error>(true),
        boot_default@ == "off"@ ==> r == Ok::<bool, Error>(false),
        boot_default@ == "last"@ ==> r == Ok::<bool, Error>(persisted),
        boot_default@ != "on"@ && boot_default@ != "off"@ && boot_default@ != "last"@ ==> r
            == Err::<bool, Error>(Error::ParseError),
{
    proof {
        reveal_strlit("on");
        reveal_strlit("off");
        reveal_strlit("last");
        // the literals' lengths differ, so the three cases exclude one another
        assert("on"@.len() == 2);
        assert("off"@.len() == 3);
        assert("last"@.len() == 4);
    }
    if str_eq(boot_default, "on") {
        Ok(true)
    } else if str_eq(boot_default, "off") {
        Ok(false)
    } else if str_eq(boot_default, "last") {
        Ok(persisted)
    } else {
        Err(Error::ParseError)
    }
}

/// Plans the one-shot restore run after a sleep wakeup: with fn-lock
/// disabled in the configuration there is nothing to restore — no raw
/// HID node is opened and no report is sent — and with it enabled the
/// persisted state is the one to reapply.
pub fn plan_restore(cfg: &crate::apkt_config::ConfigWrapper, persisted: bool) -> (r: Option<bool>)
    ensures
        r == (if cfg.fnlock.enabled {
            Some(persisted)
        } else {
            Option::<bool>::None
        }),
{
    if cfg.fnlock.enabled {
        Some(persisted)
    } else {
        None
    }
}

/// Whether two strings hold the same text.
pub fn str_eq(a: &str, b: &str) -> (r: bool)
    ensures
        r == (a@ == b@),
{
    let r = crate::bytes::bytes_eq(a.as_bytes(), b.as_bytes());
    proof {
        if a.spec_bytes() == b.spec_bytes() {
            vstd::utf8::encode_utf8_decode_utf8(a@);
            vstd::utf8::encode_utf8_decode_utf8(b@);
        }
    }
    r
}

} // verus!
