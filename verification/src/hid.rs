//! Discovery of the HID controller and construction of the fn-lock
//! feature report.
//!
//! All functions here are pure: they work on snapshots of the device
//! registries (directory names, report descriptors, interface attributes)
//! that the caller has already read.

use vstd::prelude::*;
use vstd::string::StringSliceAdditionalSpecFns;

use crate::Error;
use crate::bytes::{contains_run, contains_subseq};

verus! {

/// What the discovery resolved for the controller: its numeric id, the
/// input-event nodes worth dispatching on, and the raw HID node for
/// feature reports.
#[derive(Clone, Debug)]
pub struct HidDeviceInfo {
    pub hid_id: u32,
    pub possible_event_paths: Vec<String>,
    pub hidraw_device_path: String,
}

/// One entry of the HID bus registry: its directory name and the binary
/// report descriptor it exposes.
#[derive(Debug)]
pub struct BusEntry {
    pub name: String,
    pub descriptor: Vec<u8>,
}

/// One raw HID interface of the controller, with the usage pair it
/// serves.
#[derive(Debug)]
pub struct HidInterface {
    pub path: String,
    pub usage: u16,
    pub usage_page: u16,
}

/// One input-subsystem device node and the key codes it reports
/// supporting.
#[derive(Debug)]
pub struct EventCandidate {
    pub path: String,
    pub supported_keys: Vec<u16>,
}

/// Everything the caller read out of the system device registries for
/// one round of discovery.
#[derive(Debug)]
pub struct HardwareSnapshot {
    pub bus_entries: Vec<BusEntry>,
    pub hid_interfaces: Vec<HidInterface>,
    pub event_candidates: Vec<EventCandidate>,
}

/// A registry entry belongs to the controller when its name carries the
/// vendor-product signature and its report descriptor holds the marker
/// of the vendor usage page.
pub open spec fn entry_matches(e: BusEntry, signature: Seq<u8>, marker: Seq<u8>) -> bool {
    contains_run(vstd::utf8::encode_utf8(e.name@), signature) && contains_run(e.descriptor@, marker)
}

/// Picks the first registry entry that carries `signature` in its name
/// and `marker` in its report descriptor; `NotFound` when none does.
pub fn locate_controller(entries: &Vec<BusEntry>, signature: &str, marker: &[u8]) -> (r: Result<
    usize,
    Error,
>)
    ensures
        r matches Ok(i) ==> 0 <= i < entries@.len() && entry_matches(
            entries@[i as int],
            signature.spec_bytes(),
            marker@,
        ) && (forall|j: int|
            0 <= j < i ==> !entry_matches(entries@[j], signature.spec_bytes(), marker@)),
        r is Err ==> r == Err::<usize, Error>(Error::NotFound) && (forall|j: int|
            0 <= j < entries@.len() ==> !entry_matches(
                entries@[j],
                signature.spec_bytes(),
                marker@,
            )),
{
    let n = entries.len();
    let mut i: usize = 0;
    while i < n
        invariant
            n == entries@.len(),
            0 <= i <= n,
            forall|j: int|
                0 <= j < i ==> !entry_matches(entries@[j], signature.spec_bytes(), marker@),
        decreases n - i,
    {
        let name_ok = contains_subseq(entries[i].name.as_str().as_bytes(), signature.as_bytes());
        if name_ok {
            let desc_ok = contains_subseq(entries[i].descriptor.as_slice(), marker);
            if desc_ok {
                return Ok(i);
            }
        }
        i += 1;
    }
    Err(Error::NotFound)
}

/// Whether an interface serves the wanted usage pair.
pub open spec fn iface_matches(f: HidInterface, usage: u16, usage_page: u16) -> bool {
    f.usage == usage && f.usage_page == usage_page
}

/// Picks the first raw HID interface serving `(usage, usage_page)`;
/// `NotFound` when none does.
pub fn resolve_hidraw_path(interfaces: &Vec<HidInterface>, usage: u16, usage_page: u16) -> (r:
    Result<usize, Error>)
    ensures
        r matches Ok(i) ==> 0 <= i < interfaces@.len() && iface_matches(
            interfaces@[i as int],
            usage,
            usage_page,
        ) && (forall|j: int| 0 <= j < i ==> !iface_matches(interfaces@[j], usage, usage_page)),
        r is Err ==> r == Err::<usize, Error>(Error::NotFound) && (forall|j: int|
            0 <= j < interfaces@.len() ==> !iface_matches(interfaces@[j], usage, usage_page)),
{
    let n = interfaces.len();
    let mut i: usize = 0;
    while i < n
        invariant
            n == interfaces@.len(),
            0 <= i <= n,
            forall|j: int| 0 <= j < i ==> !iface_matches(interfaces@[j], usage, usage_page),
        decreases n - i,
    {
        if interfaces[i].usage == usage && interfaces[i].usage_page == usage_page {
            return Ok(i);
        }
        i += 1;
    }
    Err(Error::NotFound)
}

/// Whether a candidate survives the capability filter: it supports one
/// of the watched key codes, or no key codes are watched at all, in
/// which case nothing is filtered.
pub open spec fn candidate_kept(c: EventCandidate, targets: Seq<u16>) -> bool {
    targets.len() == 0 || exists|i: int|
        0 <= i < c.supported_keys@.len() && targets.contains(#[trigger] c.supported_keys@[i])
}

/// The paths of the candidates that survive the filter, in their given
/// order.
pub open spec fn kept_paths(candidates: Seq<EventCandidate>, targets: Seq<u16>) -> Seq<Seq<char>>
    decreases candidates.len(),
{
    if candidates.len() == 0 {
        Seq::empty()
    } else {
        kept_paths(candidates.drop_last(), targets) + (if candidate_kept(
            candidates.last(),
            targets,
        ) {
            seq![candidates.last().path@]
        } else {
            Seq::empty()
        })
    }
}

/// Whether `v` holds `x`.
fn contains_u16(v: &Vec<u16>, x: u16) -> (r: bool)
    ensures
        r == v@.contains(x),
{
    let n = v.len();
    let mut i: usize = 0;
    while i < n
        invariant
            n == v@.len(),
            0 <= i <= n,
            forall|j: int| 0 <= j < i ==> v@[j] != x,
        decreases n - i,
    {
        if v[i] == x {
            return true;
        }
        i += 1;
    }
    false
}

/// Keeps the candidates whose supported keys intersect `targets`. An
/// empty `targets` applies no capability filter: every structural
/// candidate comes back, in order. An empty result is the expected
/// answer during boot races and hot-plug gaps, not an error.
pub fn resolve_event_paths(candidates: &Vec<EventCandidate>, targets: &Vec<u16>) -> (r: Vec<String>)
    ensures
        r.deep_view() == kept_paths(candidates@, targets@),
        targets@.len() == 0 ==> r@.len() == candidates@.len() && (forall|i: int|
            0 <= i < r@.len() ==> r@[i]@ == candidates@[i].path@),
{
    let n = candidates.len();
    let mut r: Vec<String> = Vec::new();
    let mut i: usize = 0;
    while i < n
        invariant
            n == candidates@.len(),
            0 <= i <= n,
            r.deep_view() == kept_paths(candidates@.take(i as int), targets@),
        decreases n - i,
    {
        let keep = if targets.len() == 0 {
            true
        } else {
            let mut any: bool = false;
            let keys = &candidates[i].supported_keys;
            let m = keys.len();
            let mut k: usize = 0;
            while k < m
                invariant
                    m == keys@.len(),
                    0 <= k <= m,
                    keys == candidates@[i as int].supported_keys,
                    any == exists|t: int|
                        0 <= t < k && targets@.contains(#[trigger] keys@[t]),
                decreases m - k,
            {
                if !any {
                    if contains_u16(targets, keys[k]) {
                        any = true;
                    }
                }
                k += 1;
            }
            any
        };
        if keep {
            r.push(candidates[i].path.clone());
        }
        proof {
            assert(candidates@.take(i + 1).drop_last() =~= candidates@.take(i as int));
            assert(candidates@.take(i + 1).last() == candidates@[i as int]);
            assert(r.deep_view() =~= kept_paths(candidates@.take(i + 1), targets@));
        }
        i += 1;
    }
    proof {
        assert(candidates@.take(n as int) =~= candidates@);
        if targets@.len() == 0 {
            lemma_kept_paths_all(candidates@, targets@);
        }
    }
    r
}

/// With no watched key codes the filter keeps everything.
proof fn lemma_kept_paths_all(candidates: Seq<EventCandidate>, targets: Seq<u16>)
    requires
        targets.len() == 0,
    ensures
        kept_paths(candidates, targets).len() == candidates.len(),
        forall|i: int|
            0 <= i < candidates.len() ==> kept_paths(candidates, targets)[i] == #[trigger] candidates[i].path@,
    decreases candidates.len(),
{
    if candidates.len() > 0 {
        lemma_kept_paths_all(candidates.drop_last(), targets);
        assert(candidate_kept(candidates.last(), targets));
        assert forall|i: int| 0 <= i < candidates.len() implies kept_paths(candidates, targets)[i]
            == #[trigger] candidates[i].path@ by {
            if i < candidates.len() - 1 {
                assert(kept_paths(candidates, targets)[i] == kept_paths(
                    candidates.drop_last(),
                    targets,
                )[i]);
                assert(candidates.drop_last()[i] == candidates[i]);
            } else {
                assert(kept_paths(candidates, targets)[i] == seq![candidates.last().path@][0]);
            }
        }
    }
}

/// The byte the report carries at offset 3: the polarity is inverted,
/// `0` turns fn-lock on and `1` turns it off.
pub open spec fn toggle_state_byte(desired_on: bool) -> u8 {
    if desired_on {
        0
    } else {
        1
    }
}

/// Builds the fixed 63-byte vendor feature report that sets the firmware
/// fn-lock state: a 3-byte command prefix, the inverted state byte at
/// offset 3, and zeroes to the end.
pub fn build_fn_lock_report(desired_on: bool) -> (r: Vec<u8>)
    ensures
        r@.len() == 63,
        r@[0] == 0x5au8,
        r@[1] == 0xd0u8,
        r@[2] == 0x4eu8,
        r@[3] == toggle_state_byte(desired_on),
        forall|i: int| 4 <= i < 63 ==> r@[i] == 0u8,
{
    let mut r: Vec<u8> = Vec::new();
    let mut i: usize = 0;
    while i < 63
        invariant
            r@.len() == i,
            0 <= i <= 63,
            forall|j: int| 0 <= j < i ==> r@[j] == 0u8,
        decreases 63 - i,
    {
        r.push(0);
        i += 1;
    }
    r[0] = 0x5a;
    r[1] = 0xd0;
    r[2] = 0x4e;
    r[3] = if desired_on {
        0
    } else {
        1
    };
    r
}

/// The suffix of `bytes` that follows the last `:` separator; the whole
/// sequence when no separator occurs.
pub open spec fn tail_after_last_colon(bytes: Seq<u8>) -> Seq<u8>
    decreases bytes.len(),
{
    if bytes.len() == 0 {
        bytes
    } else if bytes.last() == 58u8 {
        Seq::empty()
    } else {
        tail_after_last_colon(bytes.drop_last()).push(bytes.last())
    }
}

pub open spec fn is_ascii_digit(b: u8) -> bool {
    48 <= b <= 57
}

/// The numeric device id carried by a bus path: the final character of the
/// segment after the last `:`, read as one decimal digit. Only that single
/// character is consumed, so a trailing segment `12` yields `2`; this
/// mirrors the observed behaviour of the bus-path format and is kept as is.
pub open spec fn parse_hid_id_spec(bytes: Seq<u8>) -> Option<u32> {
    let tail = tail_after_last_colon(bytes);
    if tail.len() == 0 {
        None
    } else if is_ascii_digit(tail.last()) {
        Some((tail.last() - 48) as u32)
    } else {
        None
    }
}

/// Reads the numeric device id out of a bus path such as `0018:0B05:19B6.0002:1`.
///
/// Fails with `ParseError` when the segment after the last `:` is empty or
/// does not end in a decimal digit.
pub fn parse_hid_id(bus_path: &str) -> (r: Result<u32, Error>)
    ensures
        parse_hid_id_spec(bus_path.spec_bytes()) matches Some(v) ==> r == Ok::<u32, Error>(v),
        parse_hid_id_spec(bus_path.spec_bytes()) is None ==> r == Err::<u32, Error>(
            Error::ParseError,
        ),
{
    let bytes = bus_path.as_bytes();
    let n = bytes.len();
    if n == 0 {
        return Err(Error::ParseError);
    }
    let last = bytes[n - 1];
    proof {
        assert(bus_path.spec_bytes().drop_last().push(bus_path.spec_bytes().last())
            =~= bus_path.spec_bytes());
    }
    if last == 58 {
        Err(Error::ParseError)
    } else if 48 <= last && last <= 57 {
        Ok((last - 48) as u32)
    } else {
        Err(Error::ParseError)
    }
}

/// The vendor-product signature a controller entry's name must carry.
pub fn controller_signature() -> (r: &'static str)
    ensures
        r@ == "0B05:19B6"@,
{
    "0B05:19B6"
}

/// The report-descriptor run that marks the vendor usage page the
/// feature reports go through.
pub open spec fn descriptor_marker_spec() -> Seq<u8> {
    seq![0x06u8, 0x31u8, 0xffu8, 0x09u8, 0x76u8, 0xa1u8, 0x01u8, 0x85u8, 0x5au8]
}

/// Executable twin of `descriptor_marker_spec`.
pub fn descriptor_marker() -> (r: Vec<u8>)
    ensures
        r@ == descriptor_marker_spec(),
{
    let mut r: Vec<u8> = Vec::new();
    r.push(0x06);
    r.push(0x31);
    r.push(0xff);
    r.push(0x09);
    r.push(0x76);
    r.push(0xa1);
    r.push(0x01);
    r.push(0x85);
    r.push(0x5a);
    proof {
        assert(r@ =~= descriptor_marker_spec());
    }
    r
}

/// The usage pair of the raw interface that accepts the vendor feature
/// reports.
pub const FEATURE_USAGE: u16 = 0x76;

pub const FEATURE_USAGE_PAGE: u16 = 0xff31;

/// The first controller entry of the registry, by position.
pub open spec fn first_entry(entries: Seq<BusEntry>, signature: Seq<u8>, marker: Seq<u8>) -> Option<
    int,
>
    decreases entries.len(),
{
    if entries.len() == 0 {
        None
    } else if entry_matches(entries.first(), signature, marker) {
        Some(0)
    } else {
        match first_entry(entries.drop_first(), signature, marker) {
            Some(k) => Some(k + 1),
            None => None,
        }
    }
}

/// The first interface serving the usage pair, by position.
pub open spec fn first_iface(interfaces: Seq<HidInterface>, usage: u16, usage_page: u16) -> Option<
    int,
>
    decreases interfaces.len(),
{
    if interfaces.len() == 0 {
        None
    } else if iface_matches(interfaces.first(), usage, usage_page) {
        Some(0)
    } else {
        match first_iface(interfaces.drop_first(), usage, usage_page) {
            Some(k) => Some(k + 1),
            None => None,
        }
    }
}

/// A position that matches, with nothing matching before it, is the
/// first match.
proof fn lemma_first_entry_at(entries: Seq<BusEntry>, signature: Seq<u8>, marker: Seq<u8>, i: int)
    requires
        0 <= i < entries.len(),
        entry_matches(entries[i], signature, marker),
        forall|j: int| 0 <= j < i ==> !entry_matches(entries[j], signature, marker),
    ensures
        first_entry(entries, signature, marker) == Some(i),
    decreases i,
{
    if i > 0 {
        lemma_first_entry_at(entries.drop_first(), signature, marker, i - 1);
    }
}

/// When nothing matches there is no first match.
proof fn lemma_first_entry_none(entries: Seq<BusEntry>, signature: Seq<u8>, marker: Seq<u8>)
    requires
        forall|j: int| 0 <= j < entries.len() ==> !entry_matches(entries[j], signature, marker),
    ensures
        first_entry(entries, signature, marker) is None,
    decreases entries.len(),
{
    if entries.len() > 0 {
        lemma_first_entry_none(entries.drop_first(), signature, marker);
    }
}

proof fn lemma_first_iface_at(interfaces: Seq<HidInterface>, usage: u16, usage_page: u16, i: int)
    requires
        0 <= i < interfaces.len(),
        iface_matches(interfaces[i], usage, usage_page),
        forall|j: int| 0 <= j < i ==> !iface_matches(interfaces[j], usage, usage_page),
    ensures
        first_iface(interfaces, usage, usage_page) == Some(i),
    decreases i,
{
    if i > 0 {
        lemma_first_iface_at(interfaces.drop_first(), usage, usage_page, i - 1);
    }
}

proof fn lemma_first_iface_none(interfaces: Seq<HidInterface>, usage: u16, usage_page: u16)
    requires
        forall|j: int| 0 <= j < interfaces.len() ==> !iface_matches(interfaces[j], usage, usage_page),
    ensures
        first_iface(interfaces, usage, usage_page) is None,
    decreases interfaces.len(),
{
    if interfaces.len() > 0 {
        lemma_first_iface_none(interfaces.drop_first(), usage, usage_page);
    }
}

/// Resolves everything the daemon needs to know about the controller
/// from one snapshot of the device registries.
///
/// The controller is the first registry entry carrying the signature and
/// descriptor marker; its trailing digit is the numeric id; the raw node
/// is the first interface serving the feature-report usage pair; the
/// event paths are the candidates that survive the capability filter.
/// `NotFound` reports a missing controller or raw interface, and
/// `ParseError` a malformed numeric id — both fatal to the caller. An
/// empty event-path list is not an error.
pub fn get_hardware_info(snapshot: &HardwareSnapshot, target_keycodes: &Vec<u16>) -> (r: Result<
    HidDeviceInfo,
    Error,
>)
    ensures
        r matches Ok(info) ==> {
            &&& first_entry(
                snapshot.bus_entries@,
                "0B05:19B6".spec_bytes(),
                descriptor_marker_spec(),
            ) matches Some(ci) && parse_hid_id_spec(
                vstd::utf8::encode_utf8(snapshot.bus_entries@[ci].name@),
            ) == Some(info.hid_id)
            &&& first_iface(snapshot.hid_interfaces@, FEATURE_USAGE, FEATURE_USAGE_PAGE)
                matches Some(fi) && info.hidraw_device_path@ == snapshot.hid_interfaces@[fi].path@
            &&& info.possible_event_paths.deep_view() == kept_paths(
                snapshot.event_candidates@,
                target_keycodes@,
            )
        },
        first_entry(snapshot.bus_entries@, "0B05:19B6".spec_bytes(), descriptor_marker_spec())
            is None ==> r == Err::<HidDeviceInfo, Error>(Error::NotFound),
        first_entry(snapshot.bus_entries@, "0B05:19B6".spec_bytes(), descriptor_marker_spec())
            matches Some(ci) && parse_hid_id_spec(
            vstd::utf8::encode_utf8(snapshot.bus_entries@[ci].name@),
        ) is None ==> r == Err::<HidDeviceInfo, Error>(Error::ParseError),
        first_entry(snapshot.bus_entries@, "0B05:19B6".spec_bytes(), descriptor_marker_spec())
            matches Some(ci) && parse_hid_id_spec(
            vstd::utf8::encode_utf8(snapshot.bus_entries@[ci].name@),
        ) is Some && first_iface(snapshot.hid_interfaces@, FEATURE_USAGE, FEATURE_USAGE_PAGE)
            is None ==> r == Err::<HidDeviceInfo, Error>(Error::NotFound),
        r is Ok <==> {
            &&& first_entry(
                snapshot.bus_entries@,
                "0B05:19B6".spec_bytes(),
                descriptor_marker_spec(),
            ) matches Some(ci) && parse_hid_id_spec(
                vstd::utf8::encode_utf8(snapshot.bus_entries@[ci].name@),
            ) is Some
            &&& first_iface(snapshot.hid_interfaces@, FEATURE_USAGE, FEATURE_USAGE_PAGE) is Some
        },
{
    let marker = descriptor_marker();
    let ci = match locate_controller(
        &snapshot.bus_entries,
        controller_signature(),
        marker.as_slice(),
    ) {
        Ok(i) => {
            proof {
                lemma_first_entry_at(
                    snapshot.bus_entries@,
                    "0B05:19B6".spec_bytes(),
                    descriptor_marker_spec(),
                    i as int,
                );
            }
            i
        },
        Err(e) => {
            proof {
                lemma_first_entry_none(
                    snapshot.bus_entries@,
                    "0B05:19B6".spec_bytes(),
                    descriptor_marker_spec(),
                );
            }
            return Err(e);
        },
    };
    let hid_id = match parse_hid_id(snapshot.bus_entries[ci].name.as_str()) {
        Ok(v) => v,
        Err(e) => {
            return Err(e);
        },
    };
    let fi = match resolve_hidraw_path(&snapshot.hid_interfaces, FEATURE_USAGE, FEATURE_USAGE_PAGE) {
        Ok(i) => {
            proof {
                lemma_first_iface_at(
                    snapshot.hid_interfaces@,
                    FEATURE_USAGE,
                    FEATURE_USAGE_PAGE,
                    i as int,
                );
            }
            i
        },
        Err(e) => {
            proof {
                lemma_first_iface_none(snapshot.hid_interfaces@, FEATURE_USAGE, FEATURE_USAGE_PAGE);
            }
            return Err(e);
        },
    };
    let possible_event_paths = resolve_event_paths(&snapshot.event_candidates, target_keycodes);
    Ok(
        HidDeviceInfo {
            hid_id,
            possible_event_paths,
            hidraw_device_path: snapshot.hid_interfaces[fi].path.clone(),
        },
    )
}

/// Replaces, field by field, what the compatibility section overrides:
/// the numeric id, the raw node path, and — when an event path is forced
/// — the whole event-path list by that single path.
pub fn apply_overrides(info: HidDeviceInfo, compat: &crate::apkt_config::CompatibilityConfig) -> (r:
    HidDeviceInfo)
    ensures
        r.hid_id == (match compat.hid_id_override {
            Some(v) => v,
            None => info.hid_id,
        }),
        compat.hid_path_override matches Some(p) ==> r.hidraw_device_path == p,
        compat.hid_path_override is None ==> r.hidraw_device_path == info.hidraw_device_path,
        compat.event_path_override matches Some(p) ==> r.possible_event_paths@ == seq![p],
        compat.event_path_override is None ==> r.possible_event_paths == info.possible_event_paths,
{
    let mut info = info;
    if let Some(v) = &compat.hid_id_override {
        info.hid_id = *v;
    }
    if let Some(p) = &compat.hid_path_override {
        info.hidraw_device_path = p.clone();
    }
    if let Some(p) = &compat.event_path_override {
        let mut paths: Vec<String> = Vec::new();
        paths.push(p.clone());
        info.possible_event_paths = paths;
        proof {
            assert(info.possible_event_paths@ =~= seq![*p]);
        }
    }
    info
}

} // verus!
