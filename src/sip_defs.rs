//! Constants, the data model of calls and of the user directory, and the directory's
//! operations.

use vstd::prelude::*;

use crate::text::{ip_text, push_ip, same_text};

verus! {

pub const BUFFER_SIZE: usize = 1400;
pub const MAX_THREADS: usize = 5;
pub const QUEUE_CAPACITY: usize = 10;
pub const SIP_PORT: u16 = 5060;
pub const MAX_CALLS: usize = 32;
pub const MAX_UUID_LENGTH: usize = 128;
pub const MAX_USERNAME_LENGTH: usize = 16;
pub const DEFAULT_MAX_FORWARDS: u32 = 70;
pub const REGISTER_CONTACT_EXPIRES: u32 = 7200;
pub const RPORT_FLAG_VALUE: u16 = 0;

/// The address this server announces in Via and Contact; it must match the deployment.
pub const SIP_SERVER_IP_ADDRESS: &'static str = "192.168.32.131";

/// The leg of a call that a message belongs to: the caller's side.
pub const A_LEG: i32 = 1;
/// The callee's side.
pub const B_LEG: i32 = 2;

/// A first line that names a request method.
pub const REQUEST_METHOD: i32 = 1;
/// A first line that carries a response status code.
pub const STATUS_CODE: i32 = 2;

/// An IPv4 socket address: four octets and a port.
#[derive(Clone, Copy, Debug, PartialEq, Eq)]
pub struct PeerAddr {
    pub ip: [u8; 4],
    pub port: u16,
}

/// Whether SDP has been seen in each direction of one leg.
#[derive(Clone, Copy, Debug, PartialEq, Eq, Structural)]
pub struct MediaState {
    pub local_media: bool,
    pub remote_media: bool,
}

/// Where a call stands.
#[derive(Clone, Copy, Debug, PartialEq, Eq, Structural)]
pub enum CallState {
    Idle,
    Routing,
    Ringing,
    Answered,
    Connected,
    Disconnecting,
}

/// The last-seen Via, From, To and CSeq header lines of one leg, kept whole so that they
/// can be spliced into outbound messages.
#[derive(Clone, Debug)]
pub struct SipHeaderInfo {
    pub from: String,
    pub via: String,
    pub cseq: String,
    pub to: String,
}

pub struct HeaderView {
    pub from: Seq<char>,
    pub via: Seq<char>,
    pub cseq: Seq<char>,
    pub to: Seq<char>,
}

impl View for SipHeaderInfo {
    type V = HeaderView;

    open spec fn view(&self) -> HeaderView {
        HeaderView { from: self.from@, via: self.via@, cseq: self.cseq@, to: self.to@ }
    }
}

pub open spec fn empty_headers() -> HeaderView {
    HeaderView { from: Seq::empty(), via: Seq::empty(), cseq: Seq::empty(), to: Seq::empty() }
}

impl SipHeaderInfo {
    pub fn new() -> (r: SipHeaderInfo)
        ensures
            r@ == empty_headers(),
    {
        SipHeaderInfo { from: String::new(), via: String::new(), cseq: String::new(), to: String::new() }
    }
}

/// One slot of the call table.
#[derive(Clone, Debug)]
pub struct Call {
    pub a_leg_uuid: String,
    pub b_leg_uuid: String,
    pub call_state: CallState,
    pub a_leg_media: MediaState,
    pub b_leg_media: MediaState,
    pub a_leg_addr: Option<PeerAddr>,
    pub b_leg_addr: Option<PeerAddr>,
    pub index: usize,
    pub a_leg_header: SipHeaderInfo,
    pub b_leg_header: SipHeaderInfo,
    pub callee: String,
    pub a_leg_contact: String,
    pub b_leg_contact: String,
    pub is_active: bool,
}

pub struct CallView {
    pub a_leg_uuid: Seq<char>,
    pub b_leg_uuid: Seq<char>,
    pub call_state: CallState,
    pub a_leg_media: MediaState,
    pub b_leg_media: MediaState,
    pub a_leg_addr: Option<PeerAddr>,
    pub b_leg_addr: Option<PeerAddr>,
    pub index: usize,
    pub a_leg_header: HeaderView,
    pub b_leg_header: HeaderView,
    pub callee: Seq<char>,
    pub a_leg_contact: Seq<char>,
    pub b_leg_contact: Seq<char>,
    pub is_active: bool,
}

impl View for Call {
    type V = CallView;

    open spec fn view(&self) -> CallView {
        CallView {
            a_leg_uuid: self.a_leg_uuid@,
            b_leg_uuid: self.b_leg_uuid@,
            call_state: self.call_state,
            a_leg_media: self.a_leg_media,
            b_leg_media: self.b_leg_media,
            a_leg_addr: self.a_leg_addr,
            b_leg_addr: self.b_leg_addr,
            index: self.index,
            a_leg_header: self.a_leg_header@,
            b_leg_header: self.b_leg_header@,
            callee: self.callee@,
            a_leg_contact: self.a_leg_contact@,
            b_leg_contact: self.b_leg_contact@,
            is_active: self.is_active,
        }
    }
}

pub open spec fn no_media() -> MediaState {
    MediaState { local_media: false, remote_media: false }
}

/// A slot at position `index` with every other field in its neutral state.
pub open spec fn empty_call(index: usize) -> CallView {
    CallView {
        a_leg_uuid: Seq::empty(),
        b_leg_uuid: Seq::empty(),
        call_state: CallState::Idle,
        a_leg_media: no_media(),
        b_leg_media: no_media(),
        a_leg_addr: None,
        b_leg_addr: None,
        index,
        a_leg_header: empty_headers(),
        b_leg_header: empty_headers(),
        callee: Seq::empty(),
        a_leg_contact: Seq::empty(),
        b_leg_contact: Seq::empty(),
        is_active: false,
    }
}

/// A freshly allocated slot: neutral, but active.
pub open spec fn fresh_call(index: usize) -> CallView {
    CallView { is_active: true, ..empty_call(index) }
}

impl Call {
    /// An inactive slot at position `index`.
    pub fn empty(index: usize) -> (r: Call)
        ensures
            r@ == empty_call(index),
    {
        Call {
            a_leg_uuid: String::new(),
            b_leg_uuid: String::new(),
            call_state: CallState::Idle,
            a_leg_media: MediaState { local_media: false, remote_media: false },
            b_leg_media: MediaState { local_media: false, remote_media: false },
            a_leg_addr: None,
            b_leg_addr: None,
            index,
            a_leg_header: SipHeaderInfo::new(),
            b_leg_header: SipHeaderInfo::new(),
            callee: String::new(),
            a_leg_contact: String::new(),
            b_leg_contact: String::new(),
            is_active: false,
        }
    }
}

/// The call table: `MAX_CALLS` slots and the number of active ones.
pub struct CallMap {
    pub calls: Vec<Call>,
    pub size: usize,
}

pub struct CallMapView {
    pub slots: Seq<CallView>,
    pub size: nat,
}

impl View for CallMap {
    type V = CallMapView;

    open spec fn view(&self) -> CallMapView {
        CallMapView { slots: self.calls@.map_values(|c: Call| c@), size: self.size as nat }
    }
}

/// One user of the directory and where it was last seen.
#[derive(Clone, Debug)]
pub struct LocationEntry {
    pub username: String,
    pub ip_str: String,
    pub port: u16,
    pub registered: bool,
    pub current_addr: Option<PeerAddr>,
}

/// Position `k` holds the first entry that `matches` accepts.
pub open spec fn first_entry(
    s: Seq<LocationEntry>,
    matches: spec_fn(LocationEntry) -> bool,
    k: int,
) -> bool {
    &&& 0 <= k < s.len()
    &&& matches(s[k])
    &&& forall|j: int| 0 <= j < k ==> !matches(#[trigger] s[j])
}

pub open spec fn entry_named(u: Seq<char>) -> spec_fn(LocationEntry) -> bool {
    |e: LocationEntry| e.username@ == u
}

pub open spec fn entry_registered(u: Seq<char>) -> spec_fn(LocationEntry) -> bool {
    |e: LocationEntry| e.username@ == u && e.registered
}

/// The entry of user `u` once a REGISTER from `addr` has been taken.
pub open spec fn registered_entry(e: LocationEntry, addr: PeerAddr) -> bool {
    &&& e.current_addr == Some(addr)
    &&& e.registered
    &&& e.port == addr.port
}

/// Takes the next CSeq number from the counter of server-originated requests, which is
/// only touched under the call table's lock.
pub fn next_cseq(counter: &mut usize) -> (r: usize)
    ensures
        r == *old(counter),
        *final(counter) == next_number(*old(counter)),
{
    let r = *counter;
    *counter = if r == usize::MAX {
        0
    } else {
        r + 1
    };
    r
}

/// The counter's value after `n`: one higher, wrapping to 0 past `usize::MAX`.
pub open spec fn next_number(n: usize) -> usize {
    if n == usize::MAX {
        0
    } else {
        (n + 1) as usize
    }
}

/// The directory `new` is `old` once user `u` has registered from `addr`, with `found`
/// saying whether `u` has an entry.
pub open spec fn registration(
    old: Seq<LocationEntry>,
    new: Seq<LocationEntry>,
    u: Seq<char>,
    addr: PeerAddr,
    found: bool,
) -> bool {
    &&& found == exists|k: int| first_entry(old, entry_named(u), k)
    &&& new.len() == old.len()
    &&& found ==> ({
        let k = choose|k: int| first_entry(old, entry_named(u), k);
        &&& registered_entry(new[k], addr)
        &&& new[k].ip_str@ == ip_text(addr.ip)
        &&& new[k].username@ == u
        &&& forall|j: int| 0 <= j < old.len() && j != k ==> #[trigger] new[j] == old[j]
    })
    &&& !found ==> new == old
}

/// Records that `username` registered from `addr`: the first entry of that name takes
/// `addr` as its current address, its IP text and port are overwritten from it, and it is
/// marked registered. Returns `false`, changing nothing, where no entry has that name.
pub fn update_location_entry_addr(
    entries: &mut Vec<LocationEntry>,
    username: &str,
    addr: PeerAddr,
) -> (r: bool)
    ensures
        registration(old(entries)@, final(entries)@, username@, addr, r),
{
    let ghost s = entries@;
    let mut i: usize = 0;
    while i < entries.len()
        invariant
            entries@ == s,
            s == old(entries)@,
            i <= s.len(),
            forall|j: int| 0 <= j < i ==> !(entry_named(username@))(#[trigger] s[j]),
        decreases s.len() - i,
    {
        if same_text(entries[i].username.as_str(), username) {
            let mut ip = String::new();
            push_ip(&mut ip, addr.ip);
            let old_entry = &entries[i];
            let entry = LocationEntry {
                username: old_entry.username.clone(),
                ip_str: ip,
                port: addr.port,
                registered: true,
                current_addr: Some(addr),
            };
            entries.set(i, entry);
            proof {
                assert(first_entry(s, entry_named(username@), i as int));
                let k = choose|k: int| first_entry(s, entry_named(username@), k);
                assert(k == i) by {
                    if k < i {
                        assert(!(entry_named(username@))(s[k]));
                    } else if k > i {
                        assert(!(entry_named(username@))(s[i as int]));
                    }
                }
            }
            return true;
        }
        i = i + 1;
    }
    false
}

/// The current address of the first registered entry named `u`.
pub open spec fn registered_addr(s: Seq<LocationEntry>, u: Seq<char>) -> Option<PeerAddr> {
    if exists|k: int| first_entry(s, entry_registered(u), k) {
        s[choose|k: int| first_entry(s, entry_registered(u), k)].current_addr
    } else {
        None
    }
}

/// The current address of `username`, where its entry is registered: the first entry of
/// that name that is registered.
pub fn get_registered_addr(entries: &Vec<LocationEntry>, username: &str) -> (r: Option<PeerAddr>)
    ensures
        r == registered_addr(entries@, username@),
{
    let ghost s = entries@;
    let mut i: usize = 0;
    while i < entries.len()
        invariant
            entries@ == s,
            i <= s.len(),
            forall|j: int| 0 <= j < i ==> !(entry_registered(username@))(#[trigger] s[j]),
        decreases s.len() - i,
    {
        let e = &entries[i];
        if e.registered && same_text(e.username.as_str(), username) {
            proof {
                assert(first_entry(s, entry_registered(username@), i as int));
                let k = choose|k: int| first_entry(s, entry_registered(username@), k);
                assert(k == i) by {
                    if k < i {
                        assert(!(entry_registered(username@))(s[k]));
                    } else if k > i {
                        assert(!(entry_registered(username@))(s[i as int]));
                    }
                }
            }
            return e.current_addr;
        }
        i = i + 1;
    }
    None
}

/// Entry `e` names user `u` with default address `ip`:`port`.
pub open spec fn directory_entry_is(e: LocationEntry, u: Seq<char>, ip: Seq<char>, port: u16) -> bool {
    e.username@ == u && e.ip_str@ == ip && e.port == port
}

fn directory_entry(username: &str, ip: &str, port: u16) -> (r: LocationEntry)
    ensures
        r.username@ == username@,
        r.ip_str@ == ip@,
        r.port == port,
        !r.registered,
        r.current_addr is None,
{
    LocationEntry {
        username: String::from_str(username),
        ip_str: String::from_str(ip),
        port,
        registered: false,
        current_addr: None,
    }
}

/// The static user directory: each user with its default address, none registered yet.
pub fn default_location_entries() -> (r: Vec<LocationEntry>)
    ensures
        r@.len() == 6,
        forall|i: int| 0 <= i < r@.len() ==> !(#[trigger] r@[i]).registered && r@[i].current_addr is None,
        directory_entry_is(r@[0], "1001"@, "192.168.32.10"@, 5060),
        directory_entry_is(r@[1], "1002"@, "192.168.32.10"@, 5070),
        directory_entry_is(r@[2], "1003"@, "192.168.1.103"@, 5060),
        directory_entry_is(r@[3], "1004"@, "192.168.1.104"@, 5060),
        directory_entry_is(r@[4], "1005"@, "192.168.184.1"@, 5060),
        directory_entry_is(r@[5], "1006"@, "192.168.184.1"@, 5070),
{
    let mut v: Vec<LocationEntry> = Vec::new();
    v.push(directory_entry("1001", "192.168.32.10", 5060));
    v.push(directory_entry("1002", "192.168.32.10", 5070));
    v.push(directory_entry("1003", "192.168.1.103", 5060));
    v.push(directory_entry("1004", "192.168.1.104", 5060));
    v.push(directory_entry("1005", "192.168.184.1", 5060));
    v.push(directory_entry("1006", "192.168.184.1", 5070));
    v
}

} // verus!
