//! The persistent state: the last known addresses, kept between runs in a
//! small little-endian binary file tied to the configuration text by a
//! fingerprint.
//!
//! Layout: the magic `dynners\0`, the format version (u32), the update
//! timestamp (u64), the configuration fingerprint (u64), then entries
//! `name length (u32), name (UTF-8), address type (u8: 0 IPv4, 1 IPv6),
//! address (4 or 16 bytes)`, ended by a name length of zero.

use vstd::prelude::*;
use vstd::utf8::{encode_utf8, decode_utf8, valid_utf8};
use crate::addr::IpAddress;
use crate::text::utf8_to_string;

verus! {

/// The newest format version this library reads and the one it writes.
pub const STATE_VERSION: u32 = 1;

/// Why bytes are no persistent state.
#[derive(Clone, Copy, Debug, PartialEq, Eq, Structural, Hash)]
pub enum StateError {
    /// The bytes end inside the header or inside an entry.
    Truncated,
    /// The bytes do not start with the magic.
    BadMagic,
    /// The format version is newer than this library reads.
    TooNew,
    /// An entry's name is not UTF-8.
    InvalidName,
    /// An entry's address type is neither IPv4 nor IPv6.
    BadAddressType,
}

impl StateError {
    /// A human-readable description.
    pub fn message(&self) -> (r: &'static str)
        ensures
            *self == StateError::Truncated ==> r == "unexpected end of the persistent state file",
            *self == StateError::BadMagic ==> r == "unexpected file format: invalid magic",
            *self == StateError::TooNew ==> r == "the persistent state file is too new",
            *self == StateError::InvalidName ==> r == "unexpected non-UTF8 IP address name",
            *self == StateError::BadAddressType ==> r == "unexpected IP type",
    {
        match self {
            StateError::Truncated => "unexpected end of the persistent state file",
            StateError::BadMagic => "unexpected file format: invalid magic",
            StateError::TooNew => "the persistent state file is too new",
            StateError::InvalidName => "unexpected non-UTF8 IP address name",
            StateError::BadAddressType => "unexpected IP type",
        }
    }
}

/// One logical address name and its last known address.
#[derive(Clone, Debug, PartialEq, Eq)]
pub struct StateEntry {
    pub name: String,
    pub address: IpAddress,
}

/// Everything that survives between runs.
#[derive(Clone, Debug, PartialEq, Eq)]
pub struct PersistentState {
    /// The format version.
    pub version: u32,
    /// Unix time in seconds of the last update.
    pub update_timestamp: u64,
    /// The fingerprint of the configuration text.
    pub config_hash: u64,
    /// The addresses of the last run, one entry per name.
    pub ip_addresses: Vec<StateEntry>,
}

/// The CRC-32 checksum of `b`.
pub uninterp spec fn crc32_of(b: Seq<u8>) -> u32;

/// Relies on crc32fast::hash: the CRC-32 (IEEE) checksum of the bytes, which
/// depends on the bytes alone.
pub assume_specification[ crc32fast::hash ](buf: &[u8]) -> (r: u32)
    ensures
        r == crc32_of(buf@),
;

/// The multiplicative rolling hash `h = h * 65539 + byte` (mod 2^32) over `b`,
/// started at `seed`.
pub open spec fn rolling_hash(b: Seq<u8>, seed: u32) -> u32
    decreases b.len(),
{
    if b.len() == 0 {
        seed
    } else {
        ((rolling_hash(b.drop_last(), seed) as int * 65539 + b.last() as int) % 0x1_0000_0000) as u32
    }
}

/// The fingerprint of `b` given its checksum: the checksum in the high 32
/// bits, the rolling hash seeded with it in the low 32 bits.
pub open spec fn fingerprint_from(crc: u32, b: Seq<u8>) -> u64 {
    ((crc as u64) << 32u64) | (rolling_hash(b, crc) as u64)
}

/// The fingerprint of configuration text.
pub open spec fn fingerprint(config: Seq<char>) -> u64 {
    fingerprint_from(crc32_of(encode_utf8(config)), encode_utf8(config))
}

/// Combines a checksum of `b` with the rolling hash of `b`.
pub fn combine_fingerprint(crc: u32, b: &[u8]) -> (r: u64)
    ensures
        r == fingerprint_from(crc, b@),
{
    let mut h: u32 = crc;
    let mut i: usize = 0;
    while i < b.len()
        invariant
            i <= b@.len(),
            h == rolling_hash(b@.subrange(0, i as int), crc),
        decreases b@.len() - i,
    {
        assert(b@.subrange(0, i as int + 1).drop_last() =~= b@.subrange(0, i as int));
        h = ((h as u64 * 65539 + b[i] as u64) % 0x1_0000_0000) as u32;
        i = i + 1;
    }
    assert(b@.subrange(0, b@.len() as int) =~= b@);
    ((crc as u64) << 32u64) | (h as u64)
}

/// The fingerprint of configuration text.
pub fn config_fingerprint(config: &str) -> (r: u64)
    ensures
        r == fingerprint(config@),
{
    let bytes = config.as_bytes();
    let crc = crc32fast::hash(bytes);
    combine_fingerprint(crc, bytes)
}

pub open spec fn le_u32_bytes(v: u32) -> Seq<u8> {
    seq![(v & 0xff) as u8, ((v >> 8u32) & 0xff) as u8, ((v >> 16u32) & 0xff) as u8, ((v >> 24u32) & 0xff) as u8]
}

pub open spec fn u32_of_le(b: Seq<u8>) -> u32 {
    (b[0] as u32) | ((b[1] as u32) << 8u32) | ((b[2] as u32) << 16u32) | ((b[3] as u32) << 24u32)
}

pub open spec fn le_u64_bytes(v: u64) -> Seq<u8> {
    le_u32_bytes((v & 0xffff_ffff) as u32) + le_u32_bytes((v >> 32u64) as u32)
}

pub open spec fn u64_of_le(b: Seq<u8>) -> u64 {
    (b[0] as u64) | ((b[1] as u64) << 8u64) | ((b[2] as u64) << 16u64) | ((b[3] as u64) << 24u64)
        | ((b[4] as u64) << 32u64) | ((b[5] as u64) << 40u64) | ((b[6] as u64) << 48u64) | ((
    b[7] as u64) << 56u64)
}

pub open spec fn le_u128_bytes(v: u128) -> Seq<u8> {
    le_u64_bytes((v & 0xffff_ffff_ffff_ffff) as u64) + le_u64_bytes((v >> 64u128) as u64)
}

pub open spec fn u128_of_le(b: Seq<u8>) -> u128 {
    (b[0] as u128) | ((b[1] as u128) << 8u128) | ((b[2] as u128) << 16u128) | ((b[3] as u128)
        << 24u128) | ((b[4] as u128) << 32u128) | ((b[5] as u128) << 40u128) | ((b[6] as u128)
        << 48u128) | ((b[7] as u128) << 56u128) | ((b[8] as u128) << 64u128) | ((b[9] as u128)
        << 72u128) | ((b[10] as u128) << 80u128) | ((b[11] as u128) << 88u128) | ((b[12] as u128)
        << 96u128) | ((b[13] as u128) << 104u128) | ((b[14] as u128) << 112u128) | ((
    b[15] as u128) << 120u128)
}

pub open spec fn magic() -> Seq<u8> {
    seq![100u8, 121u8, 110u8, 110u8, 101u8, 114u8, 115u8, 0u8]
}

/// The bytes of one entry.
pub open spec fn encode_entry(e: (Seq<char>, IpAddress)) -> Seq<u8> {
    le_u32_bytes(encode_utf8(e.0).len() as u32) + encode_utf8(e.0) + match e.1 {
        IpAddress::V4(v) => seq![0u8] + le_u32_bytes(v),
        IpAddress::V6(v) => seq![1u8] + le_u128_bytes(v),
    }
}

/// The bytes of a sequence of entries, in order.
pub open spec fn encode_entries(es: Seq<(Seq<char>, IpAddress)>) -> Seq<u8>
    decreases es.len(),
{
    if es.len() == 0 {
        Seq::<u8>::empty()
    } else {
        encode_entry(es[0]) + encode_entries(es.drop_first())
    }
}

pub open spec fn entry_views(v: Seq<StateEntry>) -> Seq<(Seq<char>, IpAddress)> {
    v.map_values(|e: StateEntry| (e.name@, e.address))
}

/// The bytes of a whole state.
pub open spec fn encode_state(s: PersistentState) -> Seq<u8> {
    magic() + le_u32_bytes(s.version) + le_u64_bytes(s.update_timestamp) + le_u64_bytes(
        s.config_hash,
    ) + encode_entries(entry_views(s.ip_addresses@)) + le_u32_bytes(0)
}

/// The map that a sequence of entries gives, a later entry replacing an
/// earlier one of the same name.
pub open spec fn entries_map(es: Seq<(Seq<char>, IpAddress)>) -> Map<Seq<char>, IpAddress>
    decreases es.len(),
{
    if es.len() == 0 {
        Map::empty()
    } else {
        entries_map(es.drop_last()).insert(es.last().0, es.last().1)
    }
}

pub open spec fn prepend<E>(l: Seq<(Seq<char>, IpAddress)>, r: Result<Seq<(Seq<char>, IpAddress)>, E>) -> Result<Seq<(Seq<char>, IpAddress)>, E> {
    match r {
        Ok(es) => Ok(l + es),
        Err(e) => Err(e),
    }
}

/// The entries that `b` holds, read up to a zero name length or the end.
#[verifier::opaque]
pub open spec fn decode_entries(b: Seq<u8>) -> Result<Seq<(Seq<char>, IpAddress)>, StateError>
    decreases b.len(),
{
    if b.len() == 0 {
        Ok(Seq::empty())
    } else if b.len() < 4 {
        Err(StateError::Truncated)
    } else {
        let n = u32_of_le(b.subrange(0, 4)) as int;
        if n == 0 {
            Ok(Seq::empty())
        } else if b.len() < 4 + n {
            Err(StateError::Truncated)
        } else if !valid_utf8(b.subrange(4, 4 + n)) {
            Err(StateError::InvalidName)
        } else if b.len() < 5 + n {
            Err(StateError::Truncated)
        } else {
            let name = decode_utf8(b.subrange(4, 4 + n));
            if b[4 + n] == 0 {
                if b.len() < 9 + n {
                    Err(StateError::Truncated)
                } else {
                    prepend(
                        seq![(name, IpAddress::V4(u32_of_le(b.subrange(5 + n, 9 + n))))],
                        decode_entries(b.subrange(9 + n, b.len() as int)),
                    )
                }
            } else if b[4 + n] == 1 {
                if b.len() < 21 + n {
                    Err(StateError::Truncated)
                } else {
                    prepend(
                        seq![(name, IpAddress::V6(u128_of_le(b.subrange(5 + n, 21 + n))))],
                        decode_entries(b.subrange(21 + n, b.len() as int)),
                    )
                }
            } else {
                Err(StateError::BadAddressType)
            }
        }
    }
}

/// What a state is: version, timestamp, fingerprint and address map.
pub type StateView = (u32, u64, u64, Map<Seq<char>, IpAddress>);

/// The state that `b` holds.
pub open spec fn decode_state(b: Seq<u8>) -> Result<StateView, StateError> {
    if b.len() < 8 {
        Err(StateError::Truncated)
    } else if b.subrange(0, 8) != magic() {
        Err(StateError::BadMagic)
    } else if b.len() < 12 {
        Err(StateError::Truncated)
    } else if u32_of_le(b.subrange(8, 12)) > STATE_VERSION {
        Err(StateError::TooNew)
    } else if b.len() < 28 {
        Err(StateError::Truncated)
    } else {
        match decode_entries(b.subrange(28, b.len() as int)) {
            Ok(es) => Ok(
                (
                    u32_of_le(b.subrange(8, 12)),
                    u64_of_le(b.subrange(12, 20)),
                    u64_of_le(b.subrange(20, 28)),
                    entries_map(es),
                ),
            ),
            Err(e) => Err(e),
        }
    }
}

impl View for PersistentState {
    type V = StateView;

    open spec fn view(&self) -> StateView {
        (self.version, self.update_timestamp, self.config_hash, self.ip_map())
    }
}

impl PersistentState {
    /// Names are distinct, and each fits the file's u32 length field.
    pub open spec fn wf(&self) -> bool {
        &&& forall|i: int, j: int|
            0 <= i < j < self.ip_addresses@.len() ==> #[trigger] self.ip_addresses@[i].name@
                != #[trigger] self.ip_addresses@[j].name@
        &&& forall|i: int|
            0 <= i < self.ip_addresses@.len() ==> encode_utf8(
                #[trigger] self.ip_addresses@[i].name@,
            ).len() <= u32::MAX
    }

    /// The address of each name.
    pub open spec fn ip_map(&self) -> Map<Seq<char>, IpAddress> {
        entries_map(entry_views(self.ip_addresses@))
    }
}

/// Of entries with distinct names, the map holds each entry, and nothing else.
pub proof fn lemma_entries_map_distinct(es: Seq<(Seq<char>, IpAddress)>)
    requires
        forall|i: int, j: int| 0 <= i < j < es.len() ==> es[i].0 != es[j].0,
    ensures
        forall|i: int| 0 <= i < es.len() ==> #[trigger] entries_map(es).contains_key(es[i].0)
            && entries_map(es)[es[i].0] == es[i].1,
        forall|k: Seq<char>| #[trigger] entries_map(es).contains_key(k) ==> exists|i: int|
            0 <= i < es.len() && es[i].0 == k,
    decreases es.len(),
{
    if es.len() > 0 {
        let init = es.drop_last();
        assert forall|i: int, j: int| 0 <= i < j < init.len() implies init[i].0 != init[j].0 by {
            assert(init[i] == es[i] && init[j] == es[j]);
        }
        lemma_entries_map_distinct(init);
        let m = entries_map(init);
        assert(entries_map(es) == m.insert(es.last().0, es.last().1));
        assert forall|i: int| 0 <= i < es.len() implies #[trigger] entries_map(es).contains_key(
            es[i].0,
        ) && entries_map(es)[es[i].0] == es[i].1 by {
            if i < es.len() - 1 {
                assert(init[i] == es[i]);
                assert(es[i].0 != es[es.len() - 1].0);
                assert(m.contains_key(init[i].0));
            }
        }
        assert forall|k: Seq<char>| #[trigger] entries_map(es).contains_key(k) implies exists|
            i: int,
        | 0 <= i < es.len() && es[i].0 == k by {
            if k != es.last().0 {
                assert(m.contains_key(k));
                let i = choose|i: int| 0 <= i < init.len() && init[i].0 == k;
                assert(es[i] == init[i]);
            } else {
                assert(es[es.len() - 1].0 == k);
            }
        }
    }
}


fn push_u32(out: &mut Vec<u8>, v: u32)
    ensures
        final(out)@ == old(out)@ + le_u32_bytes(v),
{
    out.push((v & 0xff) as u8);
    out.push(((v >> 8u32) & 0xff) as u8);
    out.push(((v >> 16u32) & 0xff) as u8);
    out.push(((v >> 24u32) & 0xff) as u8);
    assert(final(out)@ =~= old(out)@ + le_u32_bytes(v));
}

fn push_u64(out: &mut Vec<u8>, v: u64)
    ensures
        final(out)@ == old(out)@ + le_u64_bytes(v),
{
    push_u32(out, (v & 0xffff_ffff) as u32);
    push_u32(out, (v >> 32u64) as u32);
    assert(final(out)@ =~= old(out)@ + le_u64_bytes(v));
}

fn push_u128(out: &mut Vec<u8>, v: u128)
    ensures
        final(out)@ == old(out)@ + le_u128_bytes(v),
{
    push_u64(out, (v & 0xffff_ffff_ffff_ffff) as u64);
    push_u64(out, (v >> 64u128) as u64);
    assert(final(out)@ =~= old(out)@ + le_u128_bytes(v));
}

fn read_u32(b: &[u8], p: usize) -> (r: u32)
    requires
        p + 4 <= b@.len(),
    ensures
        r == u32_of_le(b@.subrange(p as int, p + 4)),
{
    (b[p] as u32) | ((b[p + 1] as u32) << 8u32) | ((b[p + 2] as u32) << 16u32) | ((b[p + 3] as u32)
        << 24u32)
}

fn read_u64(b: &[u8], p: usize) -> (r: u64)
    requires
        p + 8 <= b@.len(),
    ensures
        r == u64_of_le(b@.subrange(p as int, p + 8)),
{
    (b[p] as u64) | ((b[p + 1] as u64) << 8u64) | ((b[p + 2] as u64) << 16u64) | ((b[p + 3] as u64)
        << 24u64) | ((b[p + 4] as u64) << 32u64) | ((b[p + 5] as u64) << 40u64) | ((b[p + 6] as u64)
        << 48u64) | ((b[p + 7] as u64) << 56u64)
}

fn read_u128(b: &[u8], p: usize) -> (r: u128)
    requires
        p + 16 <= b@.len(),
    ensures
        r == u128_of_le(b@.subrange(p as int, p + 16)),
{
    (b[p] as u128) | ((b[p + 1] as u128) << 8u128) | ((b[p + 2] as u128) << 16u128) | ((b[p
        + 3] as u128) << 24u128) | ((b[p + 4] as u128) << 32u128) | ((b[p + 5] as u128) << 40u128)
        | ((b[p + 6] as u128) << 48u128) | ((b[p + 7] as u128) << 56u128) | ((b[p + 8] as u128)
        << 64u128) | ((b[p + 9] as u128) << 72u128) | ((b[p + 10] as u128) << 80u128) | ((b[p
        + 11] as u128) << 88u128) | ((b[p + 12] as u128) << 96u128) | ((b[p + 13] as u128)
        << 104u128) | ((b[p + 14] as u128) << 112u128) | ((b[p + 15] as u128) << 120u128)
}

impl PersistentState {
    /// An empty state for configuration text with fingerprint `config_hash`,
    /// stamped with `now` (Unix seconds).
    pub fn new_with_config_hash(config_hash: u64, now: u64) -> (r: Self)
        ensures
            r.wf(),
            r.version == STATE_VERSION,
            r.update_timestamp == now,
            r.config_hash == config_hash,
            r.ip_addresses@.len() == 0,
            r.ip_map() == Map::<Seq<char>, IpAddress>::empty(),
    {
        PersistentState {
            version: STATE_VERSION,
            update_timestamp: now,
            config_hash,
            ip_addresses: Vec::new(),
        }
    }

    /// An empty state for `config`, stamped with `now` (Unix seconds).
    pub fn new(config: &str, now: u64) -> (r: Self)
        ensures
            r.wf(),
            r.version == STATE_VERSION,
            r.update_timestamp == now,
            r.config_hash == fingerprint(config@),
            r.ip_map() == Map::<Seq<char>, IpAddress>::empty(),
    {
        PersistentState::new_with_config_hash(config_fingerprint(config), now)
    }

    /// Whether this state was made for `config`.
    pub fn is_same_config_file(&self, config: &str) -> (r: bool)
        ensures
            r == (self.config_hash == fingerprint(config@)),
    {
        self.config_hash == config_fingerprint(config)
    }

    /// Keeps the state if it was made for `config` and returns true;
    /// otherwise empties it, takes `config`'s fingerprint and the time `now`,
    /// and returns false.
    pub fn validate_against(&mut self, config: &str, now: u64) -> (r: bool)
        requires
            old(self).wf(),
        ensures
            final(self).wf(),
            r == (old(self).config_hash == fingerprint(config@)),
            r ==> *final(self) == *old(self),
            !r ==> final(self).version == old(self).version && final(self).config_hash
                == fingerprint(config@) && final(self).update_timestamp == now
                && final(self).ip_addresses@.len() == 0,
    {
        let hash = config_fingerprint(config);
        if self.config_hash == hash {
            true
        } else {
            self.ip_addresses = Vec::new();
            self.config_hash = hash;
            self.update_timestamp = now;
            false
        }
    }

    /// The last known address of `name`.
    pub fn get(&self, name: &str) -> (r: Option<IpAddress>)
        requires
            self.wf(),
        ensures
            r == (if self.ip_map().contains_key(name@) {
                Some(self.ip_map()[name@])
            } else {
                None
            }),
    {
        proof {
            lemma_entries_map_distinct(entry_views(self.ip_addresses@));
        }
        let key = name.to_owned();
        let mut i: usize = 0;
        while i < self.ip_addresses.len()
            invariant
                self.wf(),
                i <= self.ip_addresses@.len(),
                key@ == name@,
                forall|j: int| 0 <= j < i ==> #[trigger] self.ip_addresses@[j].name@ != name@,
            decreases self.ip_addresses@.len() - i,
        {
            if self.ip_addresses[i].name == key {
                let ghost es = entry_views(self.ip_addresses@);
                assert(es[i as int] == (
                    self.ip_addresses@[i as int].name@,
                    self.ip_addresses@[i as int].address,
                ));
                proof {
                    lemma_entries_map_distinct(es);
                }
                assert(entries_map(es).contains_key(es[i as int].0));
                return Some(self.ip_addresses[i].address);
            }
            i = i + 1;
        }
        proof {
            if self.ip_map().contains_key(name@) {
                let es = entry_views(self.ip_addresses@);
                let j = choose|j: int| 0 <= j < es.len() && es[j].0 == name@;
                assert(self.ip_addresses@[j].name@ == name@);
            }
        }
        None
    }

    /// Records `address` as the last known address of `name`.
    pub fn insert(&mut self, name: String, address: IpAddress)
        requires
            old(self).wf(),
            encode_utf8(name@).len() <= u32::MAX,
        ensures
            final(self).wf(),
            final(self).ip_map() == old(self).ip_map().insert(name@, address),
            final(self).version == old(self).version,
            final(self).update_timestamp == old(self).update_timestamp,
            final(self).config_hash == old(self).config_hash,
    {
        let ghost es = entry_views(self.ip_addresses@);
        proof {
            lemma_entries_map_distinct(es);
        }
        let mut i: usize = 0;
        while i < self.ip_addresses.len()
            invariant
                i <= self.ip_addresses@.len(),
                *self == *old(self),
                old(self).wf(),
                encode_utf8(name@).len() <= u32::MAX,
                es == entry_views(self.ip_addresses@),
                forall|j: int| 0 <= j < i ==> #[trigger] self.ip_addresses@[j].name@ != name@,
            decreases self.ip_addresses@.len() - i,
        {
            if self.ip_addresses[i].name == name {
                let ghost k = name@;
                self.ip_addresses[i] = StateEntry { name, address };
                proof {
                    let es2 = entry_views(self.ip_addresses@);
                    assert(es2 =~= es.update(i as int, (k, address)));
                    assert(es[i as int].0 == k);
                    assert forall|x: int| 0 <= x < es.len() implies #[trigger] es2[x].0 == es[x].0
                        && es[x].0 == old(self).ip_addresses@[x].name@ by {}
                    assert forall|a: int, b: int| 0 <= a < b < es2.len() implies es2[a].0 != es2[b].0 by {
                        assert(es2[a].0 == es[a].0 && es2[b].0 == es[b].0);
                        assert(old(self).ip_addresses@[a].name@ != old(self).ip_addresses@[b].name@);
                    }
                    assert forall|a: int, b: int|
                        0 <= a < b < self.ip_addresses@.len() implies #[trigger] self.ip_addresses@[a].name@
                        != #[trigger] self.ip_addresses@[b].name@ by {
                        assert(es2[a].0 == self.ip_addresses@[a].name@);
                        assert(es2[b].0 == self.ip_addresses@[b].name@);
                    }
                    assert forall|x: int| 0 <= x < self.ip_addresses@.len() implies encode_utf8(
                        #[trigger] self.ip_addresses@[x].name@).len() <= u32::MAX by {
                        assert(es2[x].0 == self.ip_addresses@[x].name@);
                        assert(es2[x].0 == old(self).ip_addresses@[x].name@);
                    }
                    lemma_entries_map_distinct(es2);
                    assert forall|a: int, b: int| 0 <= a < b < es.len() implies es[a].0 != es[b].0 by {
                        assert(old(self).ip_addresses@[a].name@ != old(self).ip_addresses@[b].name@);
                    }
                    lemma_entries_map_distinct(es);
                    let m = entries_map(es);
                    let m2 = entries_map(es2);
                    assert forall|key: Seq<char>| m2.contains_key(key) <==> m.insert(k, address).contains_key(key) by {
                        if m2.contains_key(key) {
                            let j = choose|j: int| 0 <= j < es2.len() && es2[j].0 == key;
                            if j != i {
                                assert(es[j] == es2[j]);
                            }
                        }
                        if m.contains_key(key) {
                            let j = choose|j: int| 0 <= j < es.len() && es[j].0 == key;
                            assert(es2[j].0 == es[j].0);
                            assert(m2.contains_key(es2[j].0));
                        }
                        if key == k {
                            assert(es2[i as int].0 == k);
                        }
                    }
                    assert forall|key: Seq<char>| #[trigger] m2.contains_key(key) implies m2[key] == m.insert(k, address)[key] by {
                        let j = choose|j: int| 0 <= j < es2.len() && es2[j].0 == key;
                        if j != i {
                            assert(es[j] == es2[j]);
                        }
                    }
                    assert(m2 =~= m.insert(k, address));
                }
                return;
            }
            i = i + 1;
        }
        let ghost k = name@;
        self.ip_addresses.push(StateEntry { name, address });
        proof {
            let es2 = entry_views(self.ip_addresses@);
            assert(es2 =~= es.push((k, address)));
            assert(es2.drop_last() =~= es);
        }
    }

    /// The bytes of this state.
    pub fn to_bytes(&self) -> (r: Vec<u8>)
        requires
            self.wf(),
        ensures
            r@ == encode_state(*self),
    {
        let mut out: Vec<u8> = Vec::new();
        out.push(100u8);
        out.push(121u8);
        out.push(110u8);
        out.push(110u8);
        out.push(101u8);
        out.push(114u8);
        out.push(115u8);
        out.push(0u8);
        assert(out@ =~= magic());
        push_u32(&mut out, self.version);
        push_u64(&mut out, self.update_timestamp);
        push_u64(&mut out, self.config_hash);
        let ghost header = out@;
        let ghost es = entry_views(self.ip_addresses@);
        let mut i: usize = 0;
        while i < self.ip_addresses.len()
            invariant
                self.wf(),
                i <= self.ip_addresses@.len(),
                es == entry_views(self.ip_addresses@),
                out@ == header + encode_entries(es.subrange(0, i as int)),
            decreases self.ip_addresses@.len() - i,
        {
            let e = &self.ip_addresses[i];
            let bytes = e.name.as_str().as_bytes();
            assert(encode_utf8(e.name@).len() <= u32::MAX);
            let ghost before = out@;
            push_u32(&mut out, bytes.len() as u32);
            let mut k: usize = 0;
            let ghost mid = out@;
            while k < bytes.len()
                invariant
                    k <= bytes@.len(),
                    out@ == mid + bytes@.subrange(0, k as int),
                decreases bytes@.len() - k,
            {
                out.push(bytes[k]);
                assert(out@ =~= mid + bytes@.subrange(0, k as int + 1));
                k = k + 1;
            }
            assert(bytes@.subrange(0, bytes@.len() as int) =~= bytes@);
            match e.address {
                IpAddress::V4(v) => {
                    out.push(0u8);
                    push_u32(&mut out, v);
                },
                IpAddress::V6(v) => {
                    out.push(1u8);
                    push_u128(&mut out, v);
                },
            }
            proof {
                assert(out@ =~= before + encode_entry(es[i as int]));
                lemma_encode_entries_push(es.subrange(0, i as int), es[i as int]);
                assert(es.subrange(0, i as int + 1) =~= es.subrange(0, i as int).push(es[i as int]));
            }
            i = i + 1;
        }
        assert(es.subrange(0, es.len() as int) =~= es);
        push_u32(&mut out, 0);
        out
    }
}

proof fn lemma_encode_entries_push(es: Seq<(Seq<char>, IpAddress)>, e: (Seq<char>, IpAddress))
    ensures
        encode_entries(es.push(e)) == encode_entries(es) + encode_entry(e),
    decreases es.len(),
{
    if es.len() == 0 {
        assert(es.push(e).drop_first() =~= Seq::<(Seq<char>, IpAddress)>::empty());
        assert(es.push(e)[0] == e);
        assert(encode_entries(Seq::<(Seq<char>, IpAddress)>::empty()) == Seq::<u8>::empty());
        assert(encode_entries(es.push(e)) =~= encode_entry(e));
    } else {
        lemma_encode_entries_push(es.drop_first(), e);
        assert(es.push(e).drop_first() =~= es.drop_first().push(e));
        assert(encode_entries(es.push(e)) =~= encode_entries(es) + encode_entry(e));
    }
}


impl PersistentState {
    /// Reads a state from the bytes of a state file.
    #[verifier::rlimit(100)]
    pub fn from_bytes(b: &[u8]) -> (r: Result<PersistentState, StateError>)
        ensures
            r matches Ok(s) ==> s.wf() && decode_state(b@) == Ok::<StateView, StateError>(s@),
            r matches Err(e) ==> decode_state(b@) == Err::<StateView, StateError>(e),
    {
        let len = b.len();
        if len < 8 {
            return Err(StateError::Truncated);
        }
        if !(b[0] == 100u8 && b[1] == 121u8 && b[2] == 110u8 && b[3] == 110u8 && b[4] == 101u8
            && b[5] == 114u8 && b[6] == 115u8 && b[7] == 0u8) {
            proof {
                if b@.subrange(0, 8) == magic() {
                    assert forall|k: int| 0 <= k < 8 implies b@[k] == magic()[k] by {
                        assert(b@.subrange(0, 8)[k] == b@[k]);
                    }
                }
            }
            return Err(StateError::BadMagic);
        }
        assert(b@.subrange(0, 8) =~= magic());
        if len < 12 {
            return Err(StateError::Truncated);
        }
        let version = read_u32(b, 8);
        if version > STATE_VERSION {
            return Err(StateError::TooNew);
        }
        if len < 28 {
            return Err(StateError::Truncated);
        }
        let update_timestamp = read_u64(b, 12);
        let config_hash = read_u64(b, 20);
        let mut st = PersistentState::new_with_config_hash(config_hash, update_timestamp);
        st.version = version;
        let mut pos: usize = 28;
        let ghost mut decoded: Seq<(Seq<char>, IpAddress)> = Seq::empty();
        assert(decoded + Seq::<(Seq<char>, IpAddress)>::empty() =~= decoded);
        assert(b@.subrange(28, len as int) == b@.subrange(pos as int, len as int));
        proof {
            match decode_entries(b@.subrange(28, len as int)) {
                Ok(es) => {
                    assert(decoded + es =~= es);
                },
                Err(_) => {},
            }
        }
        loop
            invariant
                28 <= pos <= len,
                len == b@.len(),
                st.wf(),
                st.version == version,
                st.update_timestamp == update_timestamp,
                st.config_hash == config_hash,
                st.ip_map() == entries_map(decoded),
                decode_entries(b@.subrange(28, len as int)) == prepend(
                    decoded,
                    decode_entries(b@.subrange(pos as int, len as int)),
                ),
                decode_state(b@) == match decode_entries(b@.subrange(28, len as int)) {
                    Ok(es) => Ok((version, update_timestamp, config_hash, entries_map(es))),
                    Err(e) => Err(e),
                },
            decreases len - pos,
        {
            let ghost rest = b@.subrange(pos as int, len as int);
            proof {
                reveal(decode_entries);
            }
            if pos == len {
                assert(rest.len() == 0);
                assert(decoded + Seq::<(Seq<char>, IpAddress)>::empty() =~= decoded);
                return Ok(st);
            }
            if len - pos < 4 {
                return Err(StateError::Truncated);
            }
            let n32 = read_u32(b, pos);
            assert(rest.subrange(0, 4) =~= b@.subrange(pos as int, pos + 4));
            if n32 == 0 {
                assert(decoded + Seq::<(Seq<char>, IpAddress)>::empty() =~= decoded);
                return Ok(st);
            }
            let n = n32 as usize;
            if len - pos - 4 < n {
                return Err(StateError::Truncated);
            }
            let mut name_bytes: Vec<u8> = Vec::new();
            let mut k: usize = 0;
            while k < n
                invariant
                    k <= n,
                    pos + 4 + n <= len,
                    len == b@.len(),
                    name_bytes@ == b@.subrange(pos + 4, pos + 4 + k),
                decreases n - k,
            {
                name_bytes.push(b[pos + 4 + k]);
                assert(name_bytes@ =~= b@.subrange(pos + 4, pos + 4 + k + 1));
                k = k + 1;
            }
            assert(rest.subrange(4, 4 + n) =~= name_bytes@);
            let name = match utf8_to_string(name_bytes.as_slice()) {
                Some(s) => s,
                None => return Err(StateError::InvalidName),
            };
            proof {
                vstd::utf8::decode_utf8_encode_utf8(name_bytes@);
            }
            if len - pos - 4 - n < 1 {
                return Err(StateError::Truncated);
            }
            let t = b[pos + 4 + n];
            assert(rest[4 + n as int] == t);
            let start = pos + 5 + n;
            let address;
            let next;
            if t == 0 {
                if len - start < 4 {
                    return Err(StateError::Truncated);
                }
                address = IpAddress::V4(read_u32(b, start));
                next = start + 4;
                assert(rest.subrange(5 + n, 9 + n) =~= b@.subrange(start as int, start + 4));
                assert(rest.subrange(9 + n, rest.len() as int) =~= b@.subrange(
                    next as int,
                    len as int,
                ));
            } else if t == 1 {
                if len - start < 16 {
                    return Err(StateError::Truncated);
                }
                address = IpAddress::V6(read_u128(b, start));
                next = start + 16;
                assert(rest.subrange(5 + n, 21 + n) =~= b@.subrange(start as int, start + 16));
                assert(rest.subrange(21 + n, rest.len() as int) =~= b@.subrange(
                    next as int,
                    len as int,
                ));
            } else {
                return Err(StateError::BadAddressType);
            }
            let ghost entry = (name@, address);
            st.insert(name, address);
            proof {
                let tail = decode_entries(b@.subrange(next as int, len as int));
                assert(decode_entries(rest) == prepend(seq![entry], tail));
                match tail {
                    Ok(es) => {
                        assert(decoded + (seq![entry] + es) =~= decoded.push(entry) + es);
                    },
                    Err(_) => {},
                }
                assert(decoded.push(entry).drop_last() =~= decoded);
                decoded = decoded.push(entry);
            }
            pos = next;
        }
    }
}

proof fn lemma_le32(v: u32)
    ensures
        u32_of_le(le_u32_bytes(v)) == v,
{
    let b = le_u32_bytes(v);
    assert(((((v & 0xff) as u8) as u32) | (((((v >> 8u32) & 0xff) as u8) as u32) << 8u32) | (((((v
        >> 16u32) & 0xff) as u8) as u32) << 16u32) | (((((v >> 24u32) & 0xff) as u8) as u32)
        << 24u32)) == v) by (bit_vector);
}

proof fn lemma_le64(v: u64)
    ensures
        u64_of_le(le_u64_bytes(v)) == v,
{
    let lo = (v & 0xffff_ffff) as u32;
    let hi = (v >> 32u64) as u32;
    let b = le_u64_bytes(v);
    assert(b[0] == (lo & 0xff) as u8 && b[4] == (hi & 0xff) as u8);
    assert(((((lo & 0xff) as u8) as u64) | (((((lo >> 8u32) & 0xff) as u8) as u64) << 8u64) | (((((
    lo >> 16u32) & 0xff) as u8) as u64) << 16u64) | (((((lo >> 24u32) & 0xff) as u8) as u64)
        << 24u64) | ((((hi & 0xff) as u8) as u64) << 32u64) | (((((hi >> 8u32) & 0xff) as u8) as u64)
        << 40u64) | (((((hi >> 16u32) & 0xff) as u8) as u64) << 48u64) | (((((hi >> 24u32) & 0xff)
        as u8) as u64) << 56u64)) == v) by (bit_vector)
        requires
            lo == (v & 0xffff_ffff) as u32,
            hi == (v >> 32u64) as u32,
    ;
}

proof fn lemma_le128(v: u128)
    ensures
        u128_of_le(le_u128_bytes(v)) == v,
{
    let lo = (v & 0xffff_ffff_ffff_ffff) as u64;
    let hi = (v >> 64u128) as u64;
    lemma_le64(lo);
    lemma_le64(hi);
    let b = le_u128_bytes(v);
    let bl = le_u64_bytes(lo);
    let bh = le_u64_bytes(hi);
    assert(b =~= bl + bh);
    assert(u128_of_le(b) == (u64_of_le(bl) as u128) | ((u64_of_le(bh) as u128) << 64u128)) by {
        let x0 = bl[0];
        let x1 = bl[1];
        let x2 = bl[2];
        let x3 = bl[3];
        let x4 = bl[4];
        let x5 = bl[5];
        let x6 = bl[6];
        let x7 = bl[7];
        let y0 = bh[0];
        let y1 = bh[1];
        let y2 = bh[2];
        let y3 = bh[3];
        let y4 = bh[4];
        let y5 = bh[5];
        let y6 = bh[6];
        let y7 = bh[7];
        assert(((x0 as u128) | ((x1 as u128) << 8u128) | ((x2 as u128) << 16u128) | ((x3 as u128)
            << 24u128) | ((x4 as u128) << 32u128) | ((x5 as u128) << 40u128) | ((x6 as u128)
            << 48u128) | ((x7 as u128) << 56u128) | ((y0 as u128) << 64u128) | ((y1 as u128)
            << 72u128) | ((y2 as u128) << 80u128) | ((y3 as u128) << 88u128) | ((y4 as u128)
            << 96u128) | ((y5 as u128) << 104u128) | ((y6 as u128) << 112u128) | ((y7 as u128)
            << 120u128)) == ((((x0 as u64) | ((x1 as u64) << 8u64) | ((x2 as u64) << 16u64) | ((
        x3 as u64) << 24u64) | ((x4 as u64) << 32u64) | ((x5 as u64) << 40u64) | ((x6 as u64)
            << 48u64) | ((x7 as u64) << 56u64)) as u128) | ((((y0 as u64) | ((y1 as u64) << 8u64)
            | ((y2 as u64) << 16u64) | ((y3 as u64) << 24u64) | ((y4 as u64) << 32u64) | ((
        y5 as u64) << 40u64) | ((y6 as u64) << 48u64) | ((y7 as u64) << 56u64)) as u128)
            << 64u128))) by (bit_vector);
    }
    assert(((lo as u128) | ((hi as u128) << 64u128)) == v) by (bit_vector)
        requires
            lo == (v & 0xffff_ffff_ffff_ffff) as u64,
            hi == (v >> 64u128) as u64,
    ;
}

proof fn lemma_name_bytes(name: Seq<char>)
    requires
        name.len() > 0,
    ensures
        encode_utf8(name).len() > 0,
        valid_utf8(encode_utf8(name)),
        decode_utf8(encode_utf8(name)) == name,
{
    vstd::utf8::encode_utf8_valid_utf8(name);
    vstd::utf8::encode_utf8_decode_utf8(name);
    if encode_utf8(name).len() == 0 {
        assert(encode_utf8(name) =~= Seq::<u8>::empty());
        assert(decode_utf8(Seq::<u8>::empty()) =~= Seq::<char>::empty());
    }
}

#[verifier::rlimit(60)]
proof fn lemma_decode_entry_v4(name: Seq<char>, v: u32, tail: Seq<u8>)
    requires
        name.len() > 0,
        encode_utf8(name).len() <= u32::MAX,
    ensures
        decode_entries(encode_entry((name, IpAddress::V4(v))) + tail) == prepend(
            seq![(name, IpAddress::V4(v))],
            decode_entries(tail),
        ),
{
    reveal(decode_entries);
    lemma_name_bytes(name);
    let enc = encode_utf8(name);
    let n = enc.len() as int;
    lemma_le32(n as u32);
    lemma_le32(v);
    let b = encode_entry((name, IpAddress::V4(v))) + tail;
    assert(b =~= le_u32_bytes(n as u32) + enc + seq![0u8] + le_u32_bytes(v) + tail);
    assert(b.subrange(0, 4) =~= le_u32_bytes(n as u32));
    assert(b.subrange(4, 4 + n) =~= enc);
    assert(b[4 + n] == 0u8);
    assert(b.subrange(5 + n, 9 + n) =~= le_u32_bytes(v));
    assert(b.subrange(9 + n, b.len() as int) =~= tail);
}

#[verifier::rlimit(60)]
proof fn lemma_decode_entry_v6(name: Seq<char>, v: u128, tail: Seq<u8>)
    requires
        name.len() > 0,
        encode_utf8(name).len() <= u32::MAX,
    ensures
        decode_entries(encode_entry((name, IpAddress::V6(v))) + tail) == prepend(
            seq![(name, IpAddress::V6(v))],
            decode_entries(tail),
        ),
{
    reveal(decode_entries);
    lemma_name_bytes(name);
    let enc = encode_utf8(name);
    let n = enc.len() as int;
    lemma_le32(n as u32);
    lemma_le128(v);
    let b = encode_entry((name, IpAddress::V6(v))) + tail;
    assert(b =~= le_u32_bytes(n as u32) + enc + seq![1u8] + le_u128_bytes(v) + tail);
    assert(b.subrange(0, 4) =~= le_u32_bytes(n as u32));
    assert(b.subrange(4, 4 + n) =~= enc);
    assert(b[4 + n] == 1u8);
    assert(b.subrange(5 + n, 21 + n) =~= le_u128_bytes(v));
    assert(b.subrange(21 + n, b.len() as int) =~= tail);
}

proof fn lemma_decode_entry(e: (Seq<char>, IpAddress), tail: Seq<u8>)
    requires
        e.0.len() > 0,
        encode_utf8(e.0).len() <= u32::MAX,
    ensures
        decode_entries(encode_entry(e) + tail) == prepend(seq![e], decode_entries(tail)),
{
    match e.1 {
        IpAddress::V4(v) => lemma_decode_entry_v4(e.0, v, tail),
        IpAddress::V6(v) => lemma_decode_entry_v6(e.0, v, tail),
    }
}

proof fn lemma_decode_terminator()
    ensures
        decode_entries(le_u32_bytes(0)) == Ok::<Seq<(Seq<char>, IpAddress)>, StateError>(
            Seq::empty(),
        ),
{
    reveal(decode_entries);
    lemma_le32(0);
    assert(le_u32_bytes(0).subrange(0, 4) =~= le_u32_bytes(0));
}

#[verifier::rlimit(40)]
proof fn lemma_decode_encode_entries(es: Seq<(Seq<char>, IpAddress)>)
    requires
        forall|i: int| 0 <= i < es.len() ==> (#[trigger] es[i]).0.len() > 0,
        forall|i: int| 0 <= i < es.len() ==> encode_utf8((#[trigger] es[i]).0).len() <= u32::MAX,
    ensures
        decode_entries(encode_entries(es) + le_u32_bytes(0)) == Ok::<
            Seq<(Seq<char>, IpAddress)>,
            StateError,
        >(es),
    decreases es.len(),
{
    if es.len() == 0 {
        lemma_decode_terminator();
        assert(encode_entries(es) + le_u32_bytes(0) =~= le_u32_bytes(0));
        assert(es =~= Seq::<(Seq<char>, IpAddress)>::empty());
    } else {
        let e = es[0];
        let rest = es.drop_first();
        assert forall|i: int| 0 <= i < rest.len() implies (#[trigger] rest[i]).0.len() > 0
            && encode_utf8(rest[i].0).len() <= u32::MAX by {
            assert(rest[i] == es[i + 1]);
        }
        lemma_decode_encode_entries(rest);
        let tailb = encode_entries(rest) + le_u32_bytes(0);
        lemma_decode_entry(e, tailb);
        assert(encode_entries(es) + le_u32_bytes(0) =~= encode_entry(e) + tailb);
        assert(seq![e] + rest =~= es);
        assert(decode_entries(encode_entry(e) + tailb) == prepend(seq![e], decode_entries(tailb)));
        assert(decode_entries(tailb) == Ok::<Seq<(Seq<char>, IpAddress)>, StateError>(rest));
        assert(prepend(seq![e], decode_entries(tailb)) == Ok::<Seq<(Seq<char>, IpAddress)>, StateError>(seq![e] + rest));
    }
}

/// Encoding a well-formed state and decoding the bytes gives the same
/// version, timestamp, fingerprint and address map, provided that the
/// version is one this library reads and no name is empty (an empty name
/// would read as the end of the entries).
#[verifier::rlimit(60)]
pub proof fn lemma_round_trip(s: PersistentState)
    requires
        s.wf(),
        s.version <= STATE_VERSION,
        forall|i: int| 0 <= i < s.ip_addresses@.len() ==> (#[trigger] s.ip_addresses@[i]).name@.len() > 0,
    ensures
        decode_state(encode_state(s)) == Ok::<StateView, StateError>(s@),
{
    let es = entry_views(s.ip_addresses@);
    assert forall|i: int| 0 <= i < es.len() implies (#[trigger] es[i]).0.len() > 0 && encode_utf8(
        es[i].0,
    ).len() <= u32::MAX by {
        assert(es[i].0 == s.ip_addresses@[i].name@);
    }
    lemma_decode_encode_entries(es);
    lemma_le32(s.version);
    lemma_le64(s.update_timestamp);
    lemma_le64(s.config_hash);
    let b = encode_state(s);
    assert(b.subrange(0, 8) =~= magic());
    assert(b.subrange(8, 12) =~= le_u32_bytes(s.version));
    assert(b.subrange(12, 20) =~= le_u64_bytes(s.update_timestamp));
    assert(b.subrange(20, 28) =~= le_u64_bytes(s.config_hash));
    assert(b.subrange(28, b.len() as int) =~= encode_entries(es) + le_u32_bytes(0));
}

/// Bytes that do not start with the magic are refused as such, whatever
/// follows.
pub proof fn lemma_bad_magic(b: Seq<u8>)
    requires
        b.len() >= 8,
        b.subrange(0, 8) != magic(),
    ensures
        decode_state(b) == Err::<StateView, StateError>(StateError::BadMagic),
{
}

} // verus!
