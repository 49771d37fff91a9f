//! The protocol negotiation layer: credential-file parsing, the setup
//! request's byte layout, and the handshake state machine that interprets
//! the server's one-byte verdict.
use vstd::prelude::*;

verus! {

use crate::serializable::{Serializable, widened_chars};
use crate::sock::{pad_len, short_read_error, zero_bytes, SockError, Socket, SocketView};
use vstd::bytes::{spec_u16_from_le_bytes, spec_u16_to_le_bytes};

/// How a handshake attempt fails: a transport error, the server's refusal
/// with its reason, the server's request for further authentication with
/// its reason, or a verdict byte outside the protocol.
#[derive(Debug)]
pub enum XInterfaceError {
    SocketError(SockError),
    AuthFailure(String),
    AuthRequested(String),
    UnknownError,
}

impl From<SockError> for XInterfaceError {
    fn from(e: SockError) -> (r: Self) {
        XInterfaceError::SocketError(e)
    }
}

impl vstd::std_specs::convert::FromSpecImpl<SockError> for XInterfaceError {
    open spec fn obeys_from_spec() -> bool {
        true
    }

    open spec fn from_spec(e: SockError) -> Self {
        XInterfaceError::SocketError(e)
    }
}

/// A family describes how to interpret the address bytes of an authority
/// entry; the credential file stores it as a 16-bit tag.
#[derive(Debug, Clone, Copy, PartialEq, Eq, Structural)]
pub struct Family(pub u16);

impl From<u16> for Family {
    fn from(value: u16) -> (r: Self) {
        Family(value)
    }
}

impl vstd::std_specs::convert::FromSpecImpl<u16> for Family {
    open spec fn obeys_from_spec() -> bool {
        true
    }

    open spec fn from_spec(value: u16) -> Self {
        Family(value)
    }
}

/// The abstract contents of one authority entry.
pub ghost struct AuthEntryView {
    pub family: u16,
    pub address: Seq<u8>,
    pub number: Seq<u8>,
    pub name: Seq<u8>,
    pub data: Seq<u8>,
}

/// A single record of the user's credential file: the protocol family and
/// peer address it applies to, the display number, and the authentication
/// mechanism's name and opaque data.
#[derive(Debug, Clone, PartialEq, Eq)]
pub struct AuthEntry {
    pub family: Family,
    pub address: Vec<u8>,
    pub number: Vec<u8>,
    pub name: Vec<u8>,
    pub data: Vec<u8>,
}

impl View for AuthEntry {
    type V = AuthEntryView;

    open spec fn view(&self) -> AuthEntryView {
        AuthEntryView {
            family: self.family.0,
            address: self.address@,
            number: self.number@,
            name: self.name@,
            data: self.data@,
        }
    }
}

/// A parse failure inside the credential file: a read shortfall anywhere
/// but exactly at the start of an entry.
#[derive(Debug, Clone, Copy, PartialEq, Eq, Structural)]
pub enum AuthParseError {
    UnexpectedEnd,
}

/// The 16-bit big-endian value of two bytes; the credential file stores
/// its multi-byte integers this way, unlike the wire protocol.
pub open spec fn be16(hi: u8, lo: u8) -> u16 {
    (hi * 256 + lo) as u16
}

/// What reading a big-endian 16-bit field at `pos` yields: the value and
/// the position after it, or nothing on a shortfall.
pub open spec fn spec_read_u16(s: Seq<u8>, pos: int) -> Option<(u16, int)> {
    if pos + 2 <= s.len() {
        Some((be16(s[pos], s[pos + 1]), pos + 2))
    } else {
        None
    }
}

/// What reading a length-prefixed byte string at `pos` yields: the bytes
/// and the position after them, or nothing on a shortfall.
pub open spec fn spec_read_string(s: Seq<u8>, pos: int) -> Option<(Seq<u8>, int)> {
    match spec_read_u16(s, pos) {
        None => None,
        Some((l, p)) => if p + l <= s.len() {
            Some((s.subrange(p, p + l), p + l))
        } else {
            None
        },
    }
}

/// What reading one authority entry at `pos` yields: the clean end of the
/// sequence, an entry and the position after it, or a malformed tail.
pub ghost enum EntryParse {
    End,
    Entry { entry: AuthEntryView, next: int },
    Malformed,
}

/// One authority entry is a big-endian family tag followed by four
/// length-prefixed byte strings: address, display number, mechanism name,
/// mechanism data. End-of-file exactly at the start of an entry ends the
/// sequence cleanly; any other shortfall is malformed.
pub open spec fn spec_read_entry(s: Seq<u8>, pos: int) -> EntryParse {
    if pos == s.len() {
        EntryParse::End
    } else {
        match spec_read_u16(s, pos) {
            None => EntryParse::Malformed,
            Some((family, p1)) => match spec_read_string(s, p1) {
                None => EntryParse::Malformed,
                Some((address, p2)) => match spec_read_string(s, p2) {
                    None => EntryParse::Malformed,
                    Some((number, p3)) => match spec_read_string(s, p3) {
                        None => EntryParse::Malformed,
                        Some((name, p4)) => match spec_read_string(s, p4) {
                            None => EntryParse::Malformed,
                            Some((data, p5)) => EntryParse::Entry {
                                entry: AuthEntryView { family, address, number, name, data },
                                next: p5,
                            },
                        },
                    },
                },
            },
        }
    }
}

/// An entry occupies at least its five length fields and never runs past
/// the end of the sequence.
pub proof fn lemma_entry_advances(s: Seq<u8>, pos: int)
    requires
        0 <= pos <= s.len(),
        spec_read_entry(s, pos) is Entry,
    ensures
        pos + 10 <= spec_read_entry(s, pos)->next <= s.len(),
{
}

/// The name identifying the shared-secret ("magic cookie") authentication
/// mechanism.
pub open spec fn cookie_name() -> Seq<u8> {
    seq![77u8, 73, 84, 45, 77, 65, 71, 73, 67, 45, 67, 79, 79, 75, 73, 69, 45, 49]
}

/// What scanning the credential file from `pos` yields: the name and data
/// of the first entry whose mechanism is the magic-cookie mechanism, or an
/// empty pair when no entry matches or the tail is malformed.
pub open spec fn spec_auth_lookup(s: Seq<u8>, pos: int) -> (Seq<u8>, Seq<u8>)
    decreases s.len() - pos,
    when 0 <= pos <= s.len()
    via spec_auth_lookup_decreases
{
    match spec_read_entry(s, pos) {
        EntryParse::End => (Seq::empty(), Seq::empty()),
        EntryParse::Malformed => (Seq::empty(), Seq::empty()),
        EntryParse::Entry { entry, next } => if entry.name == cookie_name() {
            (entry.name, entry.data)
        } else {
            spec_auth_lookup(s, next)
        },
    }
}

#[via_fn]
proof fn spec_auth_lookup_decreases(s: Seq<u8>, pos: int) {
    if spec_read_entry(s, pos) is Entry {
        lemma_entry_advances(s, pos);
    }
}

/// Read a single big-endian 16-bit value from the credential file bytes,
/// advancing the cursor; on a shortfall the cursor is spent to the end.
pub fn read_u16(bytes: &Vec<u8>, pos: &mut usize) -> (r: Result<u16, AuthParseError>)
    requires
        *old(pos) <= bytes@.len(),
    ensures
        *old(pos) <= *final(pos) <= bytes@.len(),
        spec_read_u16(bytes@, *old(pos) as int) matches Some(parsed) ==> (r matches Ok(v) && v
            == parsed.0 && *final(pos) == parsed.1),
        spec_read_u16(bytes@, *old(pos) as int) is None ==> (r matches Err(e) && e
            == AuthParseError::UnexpectedEnd && *final(pos) == bytes@.len()),
{
    if bytes.len() - *pos >= 2 {
        let hi = bytes[*pos];
        let lo = bytes[*pos + 1];
        *pos += 2;
        Ok((hi as u16) * 256 + (lo as u16))
    } else {
        *pos = bytes.len();
        Err(AuthParseError::UnexpectedEnd)
    }
}

/// Read a single length-prefixed byte string from the credential file
/// bytes, advancing the cursor; on a shortfall the cursor is spent to the
/// end.
pub fn read_string(bytes: &Vec<u8>, pos: &mut usize) -> (r: Result<Vec<u8>, AuthParseError>)
    requires
        *old(pos) <= bytes@.len(),
    ensures
        *old(pos) <= *final(pos) <= bytes@.len(),
        spec_read_string(bytes@, *old(pos) as int) matches Some(parsed) ==> (r matches Ok(v) && v@
            == parsed.0 && *final(pos) == parsed.1),
        spec_read_string(bytes@, *old(pos) as int) is None ==> (r matches Err(e) && e
            == AuthParseError::UnexpectedEnd && *final(pos) == bytes@.len()),
{
    let length = match read_u16(bytes, pos) {
        Ok(l) => l as usize,
        Err(e) => {
            return Err(e);
        },
    };
    if bytes.len() - *pos >= length {
        let start = *pos;
        let n = bytes.len();
        let mut out: Vec<u8> = Vec::new();
        let mut i: usize = 0;
        while i < length
            invariant
                i <= length,
                n == bytes@.len(),
                start + length <= n,
                out@ == bytes@.subrange(start as int, start + i),
            decreases length - i,
        {
            out.push(bytes[start + i]);
            proof {
                assert(bytes@.subrange(start as int, start + i + 1) =~= bytes@.subrange(
                    start as int,
                    start + i,
                ).push(bytes@[start + i]));
            }
            i += 1;
        }
        *pos = start + length;
        Ok(out)
    } else {
        *pos = bytes.len();
        Err(AuthParseError::UnexpectedEnd)
    }
}

/// Read one authority entry, advancing the cursor: `Ok(None)` at the clean
/// end of the file, the entry otherwise, or a parse error on any other
/// shortfall (with the cursor spent to the end).
pub fn read_entry(bytes: &Vec<u8>, pos: &mut usize) -> (r: Result<Option<AuthEntry>, AuthParseError>)
    requires
        *old(pos) <= bytes@.len(),
    ensures
        *old(pos) <= *final(pos) <= bytes@.len(),
        spec_read_entry(bytes@, *old(pos) as int) is End ==> (r matches Ok(o) && o is None
            && *final(pos) == *old(pos)),
        spec_read_entry(bytes@, *old(pos) as int) matches EntryParse::Entry { entry, next } ==> (
        r matches Ok(o) && o matches Some(e) && e@ == entry && *final(pos) == next),
        spec_read_entry(bytes@, *old(pos) as int) is Malformed ==> (r matches Err(e) && e
            == AuthParseError::UnexpectedEnd && *final(pos) == bytes@.len()),
{
    if *pos == bytes.len() {
        return Ok(None);
    }
    let family = match read_u16(bytes, pos) {
        Ok(v) => Family::from(v),
        Err(e) => {
            return Err(e);
        },
    };
    let address = match read_string(bytes, pos) {
        Ok(v) => v,
        Err(e) => {
            return Err(e);
        },
    };
    let number = match read_string(bytes, pos) {
        Ok(v) => v,
        Err(e) => {
            return Err(e);
        },
    };
    let name = match read_string(bytes, pos) {
        Ok(v) => v,
        Err(e) => {
            return Err(e);
        },
    };
    let data = match read_string(bytes, pos) {
        Ok(v) => v,
        Err(e) => {
            return Err(e);
        },
    };
    Ok(Some(AuthEntry { family, address, number, name, data }))
}

/// Whether a mechanism name is the magic-cookie mechanism's.
fn is_cookie_name(name: &Vec<u8>) -> (r: bool)
    ensures
        r == (name@ == cookie_name()),
{
    let pattern: [u8; 18] = [77, 73, 84, 45, 77, 65, 71, 73, 67, 45, 67, 79, 79, 75, 73, 69, 45, 49];
    proof {
        broadcast use vstd::array::group_array_axioms;

        assert(pattern@ =~= cookie_name());
    }
    if name.len() != 18 {
        return false;
    }
    let mut i: usize = 0;
    while i < 18
        invariant
            i <= 18,
            name@.len() == 18,
            pattern@ == cookie_name(),
            forall|j: int| 0 <= j < i ==> name@[j] == cookie_name()[j],
        decreases 18 - i,
    {
        if name[i] != pattern[i] {
            return false;
        }
        i += 1;
    }
    proof {
        assert(name@ =~= cookie_name());
    }
    true
}

/// Whether a byte decodes to a whitespace character: the characters that
/// trimming a reason string removes at either end.
pub open spec fn is_wire_space(b: u8) -> bool {
    b == 9 || b == 10 || b == 11 || b == 12 || b == 13 || b == 32 || b == 133 || b == 160
}

/// The bytes with leading whitespace removed.
pub open spec fn trim_front(s: Seq<u8>) -> Seq<u8>
    decreases s.len(),
{
    if s.len() > 0 && is_wire_space(s[0]) {
        trim_front(s.skip(1))
    } else {
        s
    }
}

/// The bytes with trailing whitespace removed.
pub open spec fn trim_back(s: Seq<u8>) -> Seq<u8>
    decreases s.len(),
{
    if s.len() > 0 && is_wire_space(s[s.len() - 1]) {
        trim_back(s.take(s.len() - 1))
    } else {
        s
    }
}

/// The bytes with whitespace removed at both ends.
pub open spec fn trimmed(s: Seq<u8>) -> Seq<u8> {
    trim_back(trim_front(s))
}

fn is_space_byte(b: u8) -> (r: bool)
    ensures
        r == is_wire_space(b),
{
    b == 9 || b == 10 || b == 11 || b == 12 || b == 13 || b == 32 || b == 133 || b == 160
}

proof fn lemma_trim_front_skip(s: Seq<u8>, k: int)
    requires
        0 <= k <= s.len(),
        forall|j: int| 0 <= j < k ==> is_wire_space(s[j]),
    ensures
        trim_front(s) == trim_front(s.skip(k)),
    decreases k,
{
    if k > 0 {
        assert(s.skip(1).skip(k - 1) =~= s.skip(k));
        lemma_trim_front_skip(s.skip(1), k - 1);
    } else {
        assert(s.skip(0) =~= s);
    }
}

proof fn lemma_trim_back_take(s: Seq<u8>, k: int)
    requires
        0 <= k <= s.len(),
        forall|j: int| k <= j < s.len() ==> is_wire_space(s[j]),
    ensures
        trim_back(s) == trim_back(s.take(k)),
    decreases s.len() - k,
{
    if k < s.len() {
        assert(s.take(s.len() - 1).take(k) =~= s.take(k));
        lemma_trim_back_take(s.take(s.len() - 1), k);
    } else {
        assert(s.take(s.len() as int) =~= s);
    }
}

/// The given bytes with whitespace removed at both ends.
fn trim_bytes(v: &Vec<u8>) -> (r: Vec<u8>)
    ensures
        r@ == trimmed(v@),
{
    let n = v.len();
    let mut start: usize = 0;
    while start < n && is_space_byte(v[start])
        invariant
            n == v@.len(),
            start <= n,
            forall|j: int| 0 <= j < start ==> is_wire_space(v@[j]),
        decreases n - start,
    {
        start += 1;
    }
    proof {
        lemma_trim_front_skip(v@, start as int);
        if start < v@.len() {
            assert(!is_wire_space(v@.skip(start as int)[0]));
        }
        assert(trim_front(v@) == v@.skip(start as int));
    }
    let mut end: usize = n;
    while end > start && is_space_byte(v[end - 1])
        invariant
            n == v@.len(),
            start <= end <= n,
            forall|j: int| end <= j < n ==> is_wire_space(v@[j]),
        decreases end,
    {
        end -= 1;
    }
    proof {
        lemma_trim_back_take(v@.skip(start as int), end - start);
        if end > start {
            assert(v@.skip(start as int).take(end - start)[end - start - 1] == v@[end - 1]);
        }
        assert(trim_back(v@.skip(start as int).take(end - start)) == v@.skip(start as int).take(
            end - start,
        ));
        assert(trimmed(v@) == v@.skip(start as int).take(end - start));
    }
    let mut out: Vec<u8> = Vec::new();
    let mut i: usize = start;
    while i < end
        invariant
            n == v@.len(),
            start <= i <= end <= n,
            out@ == v@.subrange(start as int, i as int),
        decreases end - i,
    {
        out.push(v[i]);
        proof {
            assert(v@.subrange(start as int, i + 1) =~= v@.subrange(start as int, i as int).push(
                v@[i as int],
            ));
        }
        i += 1;
    }
    proof {
        assert(v@.skip(start as int).take(end - start) =~= v@.subrange(start as int, end as int));
    }
    out
}

/// The credential file's location: the override when given, else the
/// home-relative default, else none (no credential source).
pub fn xauthority_path(override_path: Option<String>, home: Option<String>) -> (r: Option<String>)
    ensures
        override_path is Some ==> r == override_path,
        override_path is None && home is None ==> r is None,
        override_path is None ==> (home matches Some(h) ==> (r matches Some(p) && p@ == h@
            + "/.Xauthority"@)),
{
    match override_path {
        Some(p) => Some(p),
        None => match home {
            Some(h) => Some(h.concat("/.Xauthority")),
            None => None,
        },
    }
}

/// Scan the credential file's bytes in order and yield the (name, data)
/// pair of the first entry using the magic-cookie mechanism; an empty pair
/// means no usable credential, which is not an error. A malformed tail
/// ends the scan with whatever was found before it.
pub fn get_auth(contents: &Vec<u8>) -> (r: (Vec<u8>, Vec<u8>))
    ensures
        r.0@ == spec_auth_lookup(contents@, 0).0,
        r.1@ == spec_auth_lookup(contents@, 0).1,
{
    let mut pos: usize = 0;
    loop
        invariant
            pos <= contents@.len(),
            spec_auth_lookup(contents@, pos as int) == spec_auth_lookup(contents@, 0),
        decreases contents@.len() - pos,
    {
        let ghost pos0 = pos as int;
        match read_entry(contents, &mut pos) {
            Ok(None) => {
                return (Vec::new(), Vec::new());
            },
            Ok(Some(entry)) => {
                proof {
                    lemma_entry_advances(contents@, pos0);
                }
                if is_cookie_name(&entry.name) {
                    return (entry.name, entry.data);
                }
            },
            Err(_) => {
                return (Vec::new(), Vec::new());
            },
        }
    }
}

/// A byte sequence followed by the zero padding that aligns it to a
/// four-byte boundary.
pub open spec fn padded4(s: Seq<u8>) -> Seq<u8> {
    s + zero_bytes(pad_len(s.len() as int, 4) as nat)
}

/// The fixed part of the setup request: the little-endian byte-order tag,
/// a reserved byte, protocol version 11.0, the two mechanism lengths, and
/// two reserved bytes.
pub open spec fn setup_header(name: Seq<u8>, data: Seq<u8>) -> Seq<u8> {
    seq![0x6cu8, 0u8, 11u8, 0u8, 0u8, 0u8] + spec_u16_to_le_bytes(name.len() as u16)
        + spec_u16_to_le_bytes(data.len() as u16) + seq![0u8, 0u8]
}

/// The whole setup request: the header, then the mechanism name and the
/// mechanism data, each padded to a four-byte boundary.
pub open spec fn setup_request_bytes(name: Seq<u8>, data: Seq<u8>) -> Seq<u8> {
    padded4(padded4(setup_header(name, data) + name) + data)
}

/// Law: the setup request is always a whole number of four-byte units,
/// whatever the mechanism name and data, as the protocol's framing
/// requires.
pub proof fn lemma_setup_request_aligned(name: Seq<u8>, data: Seq<u8>)
    ensures
        setup_request_bytes(name, data).len() % 4 == 0,
{
    let inner = padded4(setup_header(name, data) + name);
    crate::sock::lemma_pad_aligns((setup_header(name, data) + name).len() as int, 4);
    crate::sock::lemma_pad_aligns((inner + data).len() as int, 4);
}

/// The declared length of a failure record's reason text: its first byte.
pub open spec fn failure_reason_len(s: Seq<u8>) -> int {
    s[0] as int
}

/// The failure record's pad-count field, in four-byte units.
pub open spec fn failure_pad_units(s: Seq<u8>) -> int {
    spec_u16_from_le_bytes(s.subrange(5, 7)) as int
}

/// How many bytes a failure record occupies: the seven header bytes and
/// the four-byte-aligned region holding the reason.
pub open spec fn failure_record_len(s: Seq<u8>) -> int {
    7 + 4 * failure_pad_units(s)
}

/// Whether the bytes start with a complete, consistent failure record.
pub open spec fn failure_record_wf(s: Seq<u8>) -> bool {
    &&& s.len() >= 7
    &&& 4 * failure_pad_units(s) >= failure_reason_len(s)
    &&& s.len() >= failure_record_len(s)
}

/// The failure record's reason text, trimmed and widened to characters.
pub open spec fn failure_reason(s: Seq<u8>) -> Seq<char> {
    widened_chars(trimmed(s.subrange(7, 7 + failure_reason_len(s))))
}

/// The declared length of a further-authentication record's reason text.
pub open spec fn requested_reason_len(s: Seq<u8>) -> int {
    spec_u16_from_le_bytes(s.subrange(5, 7)) as int
}

/// How many bytes a further-authentication record occupies: five reserved
/// bytes, the two-byte reason length, and the reason.
pub open spec fn requested_record_len(s: Seq<u8>) -> int {
    7 + requested_reason_len(s)
}

/// Whether the bytes start with a complete further-authentication record.
pub open spec fn requested_record_wf(s: Seq<u8>) -> bool {
    s.len() >= 7 && s.len() >= requested_record_len(s)
}

/// The further-authentication record's reason text, trimmed and widened
/// to characters.
pub open spec fn requested_reason(s: Seq<u8>) -> Seq<char> {
    widened_chars(trimmed(s.subrange(7, 7 + requested_reason_len(s))))
}

/// The client side of the connection handshake over one transport handle.
pub struct XInterface {
    pub x_socket: Socket,
}

impl XInterface {
    /// Begin a handshake over a connected transport handle.
    pub fn new(x_socket: Socket) -> (r: XInterface)
        ensures
            r.x_socket@ == x_socket@,
    {
        XInterface { x_socket }
    }

    /// Queue and flush the setup request for the given authentication
    /// mechanism name and data: the fixed preamble, both lengths, the
    /// name and the data each padded to a four-byte boundary, as one
    /// transmission. Fails only on a released handle, leaving the
    /// request in the write buffer.
    pub fn send_authentication(&mut self, auth_name: Vec<u8>, auth_data: Vec<u8>) -> (r: Result<
        (),
        XInterfaceError,
    >)
        requires
            auth_name@.len() <= 0xffff,
            auth_data@.len() <= 0xffff,
        ensures
            old(self).x_socket@.desc_open ==> (r matches Ok(_) && final(self).x_socket@
                == (SocketView {
                write_buf: Seq::<u8>::empty(),
                outgoing: old(self).x_socket@.outgoing + setup_request_bytes(
                    auth_name@,
                    auth_data@,
                ),
                ..old(self).x_socket@
            })),
            !old(self).x_socket@.desc_open ==> (r matches Err(e) && e
                == XInterfaceError::SocketError(SockError::DescriptorReleased) && final(self).x_socket@ == (SocketView {
                write_buf: setup_request_bytes(auth_name@, auth_data@),
                ..old(self).x_socket@
            })),
    {
        let ghost name = auth_name@;
        let ghost data = auth_data@;
        self.x_socket.clear_write_buf();
        let mut preamble: Vec<u8> = Vec::new();
        preamble.push(0x6c);
        preamble.push(0);
        preamble.push(11);
        preamble.push(0);
        preamble.push(0);
        preamble.push(0);
        proof {
            assert(preamble@ =~= seq![0x6cu8, 0u8, 11u8, 0u8, 0u8, 0u8]);
        }
        let _ = self.x_socket.write_all(preamble);
        let _ = self.x_socket.write_serializable(auth_name.len() as u16);
        let _ = self.x_socket.write_serializable(auth_data.len() as u16);
        let mut reserved: Vec<u8> = Vec::new();
        reserved.push(0);
        reserved.push(0);
        proof {
            assert(reserved@ =~= seq![0u8, 0u8]);
        }
        let _ = self.x_socket.write_all(reserved);
        proof {
            assert(self.x_socket@.write_buf =~= setup_header(name, data));
        }
        let _ = self.x_socket.write_all(auth_name);
        proof {
            assert(self.x_socket@.write_buf =~= setup_header(name, data) + name);
        }
        let _ = self.x_socket.write_pad(4);
        proof {
            assert(self.x_socket@.write_buf == padded4(setup_header(name, data) + name));
        }
        let _ = self.x_socket.write_all(auth_data);
        let _ = self.x_socket.write_pad(4);
        proof {
            assert(self.x_socket@.write_buf == setup_request_bytes(name, data));
        }
        match self.x_socket.flush_all() {
            Ok(_) => Ok(()),
            Err(e) => Err(XInterfaceError::SocketError(e)),
        }
    }

    /// Consume the record the server sends when it rejects the
    /// authentication: a reason length byte, two version numbers, a
    /// pad count in four-byte units, then the reason text inside its
    /// zero-padded region. The trimmed reason is handed back. Succeeds
    /// exactly on a live handle whose delivered bytes hold such a record
    /// whole and consistent; a record whose padded region is too small
    /// for its declared reason length is rejected with the
    /// incomplete-read cause, since no consistent record can be read
    /// from it.
    pub fn auth_failure_read(&mut self) -> (r: Result<String, XInterfaceError>)
        ensures
            ({
                let s = old(self).x_socket@.incoming;
                &&& !old(self).x_socket@.desc_open ==> (r matches Err(e) && e
                    == XInterfaceError::SocketError(SockError::DescriptorReleased))
                &&& old(self).x_socket@.desc_open && failure_record_wf(s) ==> (r matches Ok(t)
                    && t@ == failure_reason(s) && final(self).x_socket@ == (SocketView {
                    incoming: s.skip(failure_record_len(s)),
                    read_buf: old(self).x_socket@.read_buf + s.take(failure_record_len(s)),
                    ..old(self).x_socket@
                }))
                &&& old(self).x_socket@.desc_open && s.len() < 7 ==> (r matches Err(e) && e
                    == XInterfaceError::SocketError(short_read_error(old(self).x_socket@.retry)))
                &&& old(self).x_socket@.desc_open && s.len() >= 7 && s.len() < 7
                    + failure_reason_len(s) ==> (r matches Err(e) && e
                    == XInterfaceError::SocketError(short_read_error(old(self).x_socket@.retry)))
                &&& old(self).x_socket@.desc_open && s.len() >= 7 + failure_reason_len(s) && 4
                    * failure_pad_units(s) < failure_reason_len(s) ==> (r matches Err(e) && e
                    == XInterfaceError::SocketError(SockError::IncompleteRead))
                &&& old(self).x_socket@.desc_open && s.len() >= 7 + failure_reason_len(s) && 4
                    * failure_pad_units(s) >= failure_reason_len(s) && s.len()
                    < failure_record_len(s) ==> (r matches Err(e) && e
                    == XInterfaceError::SocketError(short_read_error(old(self).x_socket@.retry)))
            }),
    {
        let ghost s = self.x_socket@.incoming;
        let ghost rb = self.x_socket@.read_buf;
        let reason_len = match self.x_socket.read_serializable::<u8>(1) {
            Ok(v) => v,
            Err(e) => {
                return Err(XInterfaceError::SocketError(e));
            },
        };
        match self.x_socket.read_serializable::<u16>(2) {
            Ok(_) => (),
            Err(e) => {
                return Err(XInterfaceError::SocketError(e));
            },
        };
        match self.x_socket.read_serializable::<u16>(2) {
            Ok(_) => (),
            Err(e) => {
                return Err(XInterfaceError::SocketError(e));
            },
        };
        let pad_size = match self.x_socket.read_serializable::<u16>(2) {
            Ok(v) => v,
            Err(e) => {
                return Err(XInterfaceError::SocketError(e));
            },
        };
        proof {
            assert(s.take(1)[0] == s[0]);
            assert(s.skip(1).skip(2) =~= s.skip(3));
            assert(s.skip(3).skip(2) =~= s.skip(5));
            assert(s.skip(5).take(2).take(2) =~= s.subrange(5, 7));
            assert(reason_len as int == failure_reason_len(s));
            assert(pad_size as int == failure_pad_units(s));
            assert(s.skip(5).skip(2) =~= s.skip(7));
        }
        let reason_raw = match self.x_socket.read_bytes(reason_len as usize) {
            Ok(v) => v,
            Err(e) => {
                return Err(XInterfaceError::SocketError(e));
            },
        };
        let pad_total = (pad_size as usize) * 4;
        if pad_total < reason_len as usize {
            return Err(XInterfaceError::SocketError(SockError::IncompleteRead));
        }
        proof {
            assert(s.skip(7).take(reason_len as int) =~= s.subrange(7, 7 + reason_len as int));
            assert(s.skip(7).skip(reason_len as int) =~= s.skip(7 + reason_len as int));
        }
        match self.x_socket.read_discard_bytes(pad_total - reason_len as usize) {
            Ok(_) => (),
            Err(e) => {
                return Err(XInterfaceError::SocketError(e));
            },
        };
        proof {
            assert(s.skip(7 + reason_len as int).skip(pad_total - reason_len as int) =~= s.skip(
                failure_record_len(s),
            ));
            assert(self.x_socket@.incoming =~= s.skip(failure_record_len(s)));
            assert(rb + s.take(1) + s.skip(1).take(2) + s.skip(3).take(2) + s.skip(5).take(2)
                + s.skip(7).take(reason_len as int) + s.skip(7 + reason_len as int).take(
                pad_total - reason_len as int,
            ) =~= rb + s.take(failure_record_len(s)));
            assert(self.x_socket@.read_buf == rb + s.take(failure_record_len(s)));
        }
        let cleaned = trim_bytes(&reason_raw);
        let out = <String as Serializable>::from_bytes(&cleaned);
        Ok(out)
    }

    /// Consume the server's further-authentication record: five reserved
    /// bytes, the two-byte reason length, and the reason text; the
    /// trimmed reason is returned. Succeeds exactly on a live handle
    /// whose delivered bytes hold a complete record.
    pub fn auth_requested_read(&mut self) -> (r: Result<String, XInterfaceError>)
        ensures
            ({
                let s = old(self).x_socket@.incoming;
                &&& !old(self).x_socket@.desc_open ==> (r matches Err(e) && e
                    == XInterfaceError::SocketError(SockError::DescriptorReleased))
                &&& old(self).x_socket@.desc_open && requested_record_wf(s) ==> (r matches Ok(t)
                    && t@ == requested_reason(s) && final(self).x_socket@ == (SocketView {
                    incoming: s.skip(requested_record_len(s)),
                    read_buf: old(self).x_socket@.read_buf + s.take(requested_record_len(s)),
                    ..old(self).x_socket@
                }))
                &&& old(self).x_socket@.desc_open && !requested_record_wf(s) ==> (r matches Err(e)
                    && e == XInterfaceError::SocketError(short_read_error(
                    old(self).x_socket@.retry,
                )))
            }),
    {
        let ghost s = self.x_socket@.incoming;
        let ghost rb = self.x_socket@.read_buf;
        match self.x_socket.read_discard_bytes(5) {
            Ok(_) => (),
            Err(e) => {
                return Err(XInterfaceError::SocketError(e));
            },
        };
        let reason_len = match self.x_socket.read_serializable::<u16>(2) {
            Ok(v) => v,
            Err(e) => {
                return Err(XInterfaceError::SocketError(e));
            },
        };
        proof {
            assert(s.skip(5).take(2).take(2) =~= s.subrange(5, 7));
            assert(reason_len as int == requested_reason_len(s));
            assert(s.skip(5).skip(2) =~= s.skip(7));
        }
        let reason_raw = match self.x_socket.read_bytes(reason_len as usize) {
            Ok(v) => v,
            Err(e) => {
                return Err(XInterfaceError::SocketError(e));
            },
        };
        proof {
            assert(s.skip(7).take(reason_len as int) =~= s.subrange(7, 7 + reason_len as int));
            assert(s.skip(7).skip(reason_len as int) =~= s.skip(requested_record_len(s)));
            assert(rb + s.take(5) + s.skip(5).take(2) + s.skip(7).take(reason_len as int) =~= rb
                + s.take(requested_record_len(s)));
        }
        let cleaned = trim_bytes(&reason_raw);
        let out = <String as Serializable>::from_bytes(&cleaned);
        Ok(out)
    }

    /// Consume the leading fields of the server's success reply: a
    /// reserved byte, the two version fields, and the length of the
    /// additional data in four-byte units. The remaining reply payload is
    /// deliberately not decoded. The read accumulation buffer is cleared
    /// first, so afterwards it holds exactly these seven bytes.
    pub fn auth_success_read(&mut self) -> (r: Result<(), XInterfaceError>)
        ensures
            ({
                let s = old(self).x_socket@.incoming;
                &&& !old(self).x_socket@.desc_open ==> (r matches Err(e) && e
                    == XInterfaceError::SocketError(SockError::DescriptorReleased))
                &&& old(self).x_socket@.desc_open && s.len() >= 7 ==> (r matches Ok(_) && final(self).x_socket@ == (SocketView {
                    incoming: s.skip(7),
                    read_buf: s.take(7),
                    ..old(self).x_socket@
                }))
                &&& old(self).x_socket@.desc_open && s.len() < 7 ==> (r matches Err(e) && e
                    == XInterfaceError::SocketError(short_read_error(old(self).x_socket@.retry)))
            }),
    {
        let ghost s = self.x_socket@.incoming;
        self.x_socket.clear_read_buf();
        match self.x_socket.read_discard_bytes(1) {
            Ok(_) => (),
            Err(e) => {
                return Err(XInterfaceError::SocketError(e));
            },
        };
        match self.x_socket.read_serializable::<u16>(2) {
            Ok(_) => (),
            Err(e) => {
                return Err(XInterfaceError::SocketError(e));
            },
        };
        match self.x_socket.read_serializable::<u16>(2) {
            Ok(_) => (),
            Err(e) => {
                return Err(XInterfaceError::SocketError(e));
            },
        };
        match self.x_socket.read_serializable::<u16>(2) {
            Ok(_) => (),
            Err(e) => {
                return Err(XInterfaceError::SocketError(e));
            },
        };
        proof {
            assert(s.skip(1).skip(2) =~= s.skip(3));
            assert(s.skip(3).skip(2) =~= s.skip(5));
            assert(s.skip(5).skip(2) =~= s.skip(7));
            assert(Seq::<u8>::empty() + s.take(1) + s.skip(1).take(2) + s.skip(3).take(2) + s.skip(
                5,
            ).take(2) =~= s.take(7));
        }
        Ok(())
    }

    /// Read the server's one-byte verdict and interpret it: `1` completes
    /// the handshake after consuming the reply's leading fields; `0`
    /// yields the authentication failure with the server's reason; `2`
    /// yields the further-authentication request with the server's
    /// reason; any other byte is an unknown verdict, terminal and
    /// unrecoverable.
    pub fn interpret_verdict(&mut self) -> (r: Result<(), XInterfaceError>)
        ensures
            ({
                let s = old(self).x_socket@.incoming;
                let tail = s.skip(1);
                &&& !old(self).x_socket@.desc_open ==> (r matches Err(e) && e
                    == XInterfaceError::SocketError(SockError::DescriptorReleased))
                &&& old(self).x_socket@.desc_open && s.len() == 0 ==> (r matches Err(e) && e
                    == XInterfaceError::SocketError(short_read_error(old(self).x_socket@.retry)))
                &&& old(self).x_socket@.desc_open && s.len() >= 1 && s[0] == 1 && tail.len() >= 7
                    ==> (r matches Ok(_) && final(self).x_socket@.incoming == s.skip(8))
                &&& old(self).x_socket@.desc_open && s.len() >= 1 && s[0] == 1 && tail.len() < 7
                    ==> (r matches Err(e) && e == XInterfaceError::SocketError(short_read_error(
                    old(self).x_socket@.retry,
                )))
                &&& old(self).x_socket@.desc_open && s.len() >= 1 && s[0] == 0
                    && failure_record_wf(tail) ==> (r matches Err(e) && e matches
                    XInterfaceError::AuthFailure(t) && t@ == failure_reason(tail) && final(self).x_socket@.incoming == tail.skip(failure_record_len(tail)))
                &&& old(self).x_socket@.desc_open && s.len() >= 1 && s[0] == 0
                    && !failure_record_wf(tail) ==> (r matches Err(e) && !(e matches
                    XInterfaceError::AuthFailure(t)) && !(e matches XInterfaceError::AuthRequested(
                    t,
                )))
                &&& old(self).x_socket@.desc_open && s.len() >= 1 && s[0] == 2
                    && requested_record_wf(tail) ==> (r matches Err(e) && e matches
                    XInterfaceError::AuthRequested(t) && t@ == requested_reason(tail) && final(self).x_socket@.incoming == tail.skip(requested_record_len(tail)))
                &&& old(self).x_socket@.desc_open && s.len() >= 1 && s[0] == 2
                    && !requested_record_wf(tail) ==> (r matches Err(e) && e
                    == XInterfaceError::SocketError(short_read_error(old(self).x_socket@.retry)))
                &&& old(self).x_socket@.desc_open && s.len() >= 1 && s[0] != 0 && s[0] != 1 && s[0]
                    != 2 ==> (r matches Err(e) && e == XInterfaceError::UnknownError && final(self).x_socket@ == (SocketView {
                    incoming: tail,
                    read_buf: old(self).x_socket@.read_buf + s.take(1),
                    ..old(self).x_socket@
                }))
            }),
    {
        let ghost s = self.x_socket@.incoming;
        let verdict = match self.x_socket.read_serializable::<u8>(1) {
            Ok(v) => v,
            Err(e) => {
                return Err(XInterfaceError::SocketError(e));
            },
        };
        proof {
            assert(s.take(1)[0] == s[0]);
        }
        if verdict == 0 {
            match self.auth_failure_read() {
                Ok(reason) => Err(XInterfaceError::AuthFailure(reason)),
                Err(e) => Err(e),
            }
        } else if verdict == 1 {
            proof {
                if s.len() >= 8 {
                    assert(s.skip(1).skip(7) =~= s.skip(8));
                }
            }
            self.auth_success_read()
        } else if verdict == 2 {
            match self.auth_requested_read() {
                Ok(reason) => Err(XInterfaceError::AuthRequested(reason)),
                Err(e) => Err(e),
            }
        } else {
            Err(XInterfaceError::UnknownError)
        }
    }
}

} // verus!
