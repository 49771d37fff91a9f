//! The byte-stream transport model: handle-local write/read buffers, the
//! retry/timeout decisions of the non-blocking read loop, alignment padding,
//! and close-once accounting for a connection descriptor shared by cloned
//! handles.
//!
//! The model performs no operating-system calls itself: a driver delivers
//! the bytes that arrived on the descriptor with [`Socket::deliver`], takes
//! the bytes to transmit with [`Socket::take_outgoing`], and acts on the
//! decisions of [`Socket::read_step`] and [`Socket::await_step`].
use vstd::prelude::*;

verus! {

use crate::serializable::Serializable;

/// Transport errors: construction failures, I/O failures, and the
/// released-descriptor condition.
#[derive(Debug, Clone, Copy, PartialEq, Eq, Structural)]
pub enum SockError {
    InitializeError(i32),
    PathTooLong,
    ConnectError(i32),
    SendError(i32),
    SendIncomplete,
    RecvError(i32),
    BufError,
    TimedOutRead,
    IncompleteRead,
    IncompleteWrite,
    DescriptorReleased,
    UnknownError,
}

/// The error a logical read reports when fewer bytes than requested were
/// delivered: with retrying enabled the wait for the rest has run out, the
/// timeout condition; with retrying disabled, the incomplete-read
/// condition of a legitimate short read.
pub open spec fn short_read_error(retry: bool) -> SockError {
    if retry {
        SockError::TimedOutRead
    } else {
        SockError::IncompleteRead
    }
}

/// The zero bytes used for reserved fields and alignment padding.
pub open spec fn zero_bytes(n: nat) -> Seq<u8> {
    Seq::new(n, |i: int| 0u8)
}

/// How many zero bytes bring a buffer of length `len` up to the next
/// multiple of `m`.
pub open spec fn pad_len(len: int, m: int) -> int {
    (m - len % m) % m
}

/// Law: padding a buffer of any prior length `len` to a multiple of any
/// `m > 0` adds `(m - len % m) % m` bytes, fewer than `m`, and leaves the
/// total length an exact multiple of `m`; flushing then transmits exactly
/// that many bytes.
pub proof fn lemma_pad_aligns(len: int, m: int)
    requires
        len >= 0,
        m > 0,
    ensures
        0 <= pad_len(len, m) < m,
        (len + pad_len(len, m)) % m == 0,
{
    assert(0 <= len % m < m) by (nonlinear_arith)
        requires
            len >= 0,
            m > 0,
    ;
    let r = len % m;
    if r == 0 {
        assert(m % m == 0) by (nonlinear_arith)
            requires
                m > 0,
        ;
        assert((len + pad_len(len, m)) % m == 0);
    } else {
        assert((m - r) % m == m - r) by (nonlinear_arith)
            requires
                0 < r < m,
        ;
        assert((len + (m - r)) % m == 0) by (nonlinear_arith)
            requires
                m > 0,
                0 < r < m,
                r == len % m,
        ;
    }
}

/// The state of one shared descriptor slot: the OS handle, whether the
/// handle is still to be closed, and how many transport handles share it.
pub ghost struct SlotView {
    pub fd: i32,
    pub present: bool,
    pub handles: nat,
}

/// One shared descriptor slot.
#[derive(Clone, Copy)]
struct DescSlot {
    fd: i32,
    present: bool,
    handles: usize,
}

impl View for DescSlot {
    type V = SlotView;

    closed spec fn view(&self) -> SlotView {
        SlotView { fd: self.fd, present: self.present, handles: self.handles as nat }
    }
}

/// What destroying one handle of a slot does: nothing while other handles
/// remain; the close, exactly once, when the last handle goes; nothing ever
/// after. The boolean says whether the close happens at this step.
pub open spec fn spec_release(s: SlotView) -> (SlotView, bool) {
    if s.handles == 0 {
        (s, false)
    } else if s.handles == 1 {
        (SlotView { present: false, handles: 0, ..s }, s.present)
    } else {
        (SlotView { handles: (s.handles - 1) as nat, ..s }, false)
    }
}

/// How many close operations `k` successive handle destructions perform on
/// a slot that starts in state `s`.
pub open spec fn spec_closes_during(s: SlotView, k: nat) -> nat
    decreases k,
{
    if k == 0 {
        0
    } else {
        let closed_now: nat = if spec_release(s).1 {
            1
        } else {
            0
        };
        closed_now + spec_closes_during(spec_release(s).0, (k - 1) as nat)
    }
}

proof fn lemma_no_close_when_drained(s: SlotView, k: nat)
    requires
        s.handles == 0,
    ensures
        spec_closes_during(s, k) == 0,
    decreases k,
{
    if k > 0 {
        lemma_no_close_when_drained(spec_release(s).0, (k - 1) as nat);
    }
}

/// Law: destroying all `n` handles that share a live descriptor closes it
/// exactly once, in whatever order the handles go; destroying fewer than
/// all of them closes it not at all.
pub proof fn lemma_close_exactly_once(s: SlotView, k: nat)
    requires
        s.present,
        s.handles >= 1,
    ensures
        spec_closes_during(s, k) == if k >= s.handles {
            1nat
        } else {
            0nat
        },
    decreases k,
{
    if k > 0 {
        let (s2, closed) = spec_release(s);
        if s.handles == 1 {
            lemma_no_close_when_drained(s2, (k - 1) as nat);
        } else {
            lemma_close_exactly_once(s2, (k - 1) as nat);
        }
    }
}

/// What a handle destruction reports: the descriptor must be closed now,
/// other handles still share it, or this handle had already released it.
#[derive(Debug, Clone, Copy, PartialEq, Eq, Structural)]
pub enum ReleaseOutcome {
    CloseNow(i32),
    StillShared,
    AlreadyReleased,
}

/// The registry of shared descriptor slots, keyed by index. It enforces
/// the released-exactly-once invariant that the transport's clone/destroy
/// lifecycle relies on.
pub struct DescriptorRegistry {
    slots: Vec<DescSlot>,
}

impl View for DescriptorRegistry {
    type V = Seq<SlotView>;

    closed spec fn view(&self) -> Seq<SlotView> {
        self.slots@.map_values(|s: DescSlot| s@)
    }
}

impl DescriptorRegistry {
    /// An empty registry.
    pub fn new() -> (r: Self)
        ensures
            r@ == Seq::<SlotView>::empty(),
    {
        let r = DescriptorRegistry { slots: Vec::new() };
        proof {
            assert(r@ =~= Seq::<SlotView>::empty());
        }
        r
    }

    /// Record a freshly connected descriptor, owned by exactly one handle.
    pub fn register(&mut self, fd: i32) -> (idx: usize)
        ensures
            idx == old(self)@.len(),
            final(self)@ == old(self)@.push(SlotView { fd, present: true, handles: 1 }),
    {
        let idx = self.slots.len();
        self.slots.push(DescSlot { fd, present: true, handles: 1 });
        proof {
            assert(final(self)@ =~= old(self)@.push(SlotView { fd, present: true, handles: 1 }));
        }
        idx
    }

    /// Record one more handle sharing the slot.
    pub fn retain(&mut self, idx: usize)
        requires
            idx < old(self)@.len(),
            old(self)@[idx as int].handles < usize::MAX,
        ensures
            final(self)@ == old(self)@.update(
                idx as int,
                SlotView { handles: old(self)@[idx as int].handles + 1, ..old(self)@[idx as int] },
            ),
    {
        let slot = self.slots[idx];
        self.slots[idx] = DescSlot { handles: slot.handles + 1, ..slot };
        proof {
            assert(final(self)@ =~= old(self)@.update(
                idx as int,
                SlotView { handles: old(self)@[idx as int].handles + 1, ..old(self)@[idx as int] },
            ));
        }
    }

    /// Record the destruction of one handle of the slot. Reports
    /// `CloseNow` exactly when this was the last handle of a still-open
    /// descriptor; the slot is marked released whatever the close outcome
    /// turns out to be, so no later destruction closes it again.
    pub fn release(&mut self, idx: usize) -> (r: ReleaseOutcome)
        requires
            idx < old(self)@.len(),
        ensures
            final(self)@ == old(self)@.update(idx as int, spec_release(old(self)@[idx as int]).0),
            r == (if spec_release(old(self)@[idx as int]).1 {
                ReleaseOutcome::CloseNow(old(self)@[idx as int].fd)
            } else if old(self)@[idx as int].handles == 0 {
                ReleaseOutcome::AlreadyReleased
            } else {
                ReleaseOutcome::StillShared
            }),
    {
        let slot = self.slots[idx];
        if slot.handles == 0 {
            proof {
                assert(final(self)@ =~= old(self)@.update(
                    idx as int,
                    spec_release(old(self)@[idx as int]).0,
                ));
            }
            ReleaseOutcome::AlreadyReleased
        } else if slot.handles == 1 {
            self.slots[idx] = DescSlot { present: false, handles: 0, ..slot };
            proof {
                assert(final(self)@ =~= old(self)@.update(
                    idx as int,
                    spec_release(old(self)@[idx as int]).0,
                ));
            }
            if slot.present {
                ReleaseOutcome::CloseNow(slot.fd)
            } else {
                ReleaseOutcome::StillShared
            }
        } else {
            self.slots[idx] = DescSlot { handles: slot.handles - 1, ..slot };
            proof {
                assert(final(self)@ =~= old(self)@.update(
                    idx as int,
                    spec_release(old(self)@[idx as int]).0,
                ));
            }
            ReleaseOutcome::StillShared
        }
    }

    /// How many slots the registry holds.
    pub fn len(&self) -> (r: usize)
        ensures
            r == self@.len(),
    {
        self.slots.len()
    }
}

/// The abstract state of one transport handle: its slot in the descriptor
/// registry, whether this handle may still use the descriptor, the
/// handle-local buffers, and the retry policy.
///
/// `incoming` holds bytes the driver has delivered from the descriptor but
/// no logical read has consumed yet; `outgoing` holds bytes that flushes
/// have queued for the driver to transmit.
pub ghost struct SocketView {
    pub desc_index: nat,
    pub fd: i32,
    pub desc_open: bool,
    pub write_buf: Seq<u8>,
    pub read_buf: Seq<u8>,
    pub incoming: Seq<u8>,
    pub outgoing: Seq<u8>,
    pub retry: bool,
    pub retry_frequency: u32,
    pub retry_timeout: u32,
}

/// The capacity of a local socket address path; a longer path cannot be
/// connected to.
pub const SUN_PATH_CAPACITY: usize = 108;

/// A buffered, retrying transport handle over a connection descriptor.
///
/// The handle owns its buffers and retry policy; the descriptor itself is
/// shared through a [`DescriptorRegistry`] slot with every handle cloned
/// from this one, and is released exactly once.
pub struct Socket {
    desc_index: usize,
    fd: i32,
    desc_open: bool,
    write_buf: Vec<u8>,
    read_buf: Vec<u8>,
    incoming: Vec<u8>,
    outgoing: Vec<u8>,
    retry: bool,
    retry_frequency: u32,
    retry_timeout: u32,
}

impl View for Socket {
    type V = SocketView;

    closed spec fn view(&self) -> SocketView {
        SocketView {
            desc_index: self.desc_index as nat,
            fd: self.fd,
            desc_open: self.desc_open,
            write_buf: self.write_buf@,
            read_buf: self.read_buf@,
            incoming: self.incoming@,
            outgoing: self.outgoing@,
            retry: self.retry,
            retry_frequency: self.retry_frequency,
            retry_timeout: self.retry_timeout,
        }
    }
}

impl Socket {
    /// Reject a socket path that does not fit the platform's address
    /// capacity; constructing a transport over such a path must fail.
    pub fn validate_path_len(path_len: usize) -> (r: Result<(), SockError>)
        ensures
            r matches Ok(_) <==> path_len < SUN_PATH_CAPACITY,
            r matches Err(e) ==> e == SockError::PathTooLong,
    {
        if path_len >= SUN_PATH_CAPACITY {
            Err(SockError::PathTooLong)
        } else {
            Ok(())
        }
    }

    /// Wrap a freshly connected descriptor in a new handle: empty buffers,
    /// retrying enabled, a retry sleep of zero and the default finite
    /// retry timeout ceiling in nanoseconds.
    pub fn attach(registry: &mut DescriptorRegistry, fd: i32) -> (s: Socket)
        ensures
            final(registry)@ == old(registry)@.push(SlotView { fd, present: true, handles: 1 }),
            s@ == (SocketView {
                desc_index: old(registry)@.len(),
                fd,
                desc_open: true,
                write_buf: Seq::<u8>::empty(),
                read_buf: Seq::<u8>::empty(),
                incoming: Seq::<u8>::empty(),
                outgoing: Seq::<u8>::empty(),
                retry: true,
                retry_frequency: 0u32,
                retry_timeout: 10000000u32,
            }),
    {
        let idx = registry.register(fd);
        Socket {
            desc_index: idx,
            fd,
            desc_open: true,
            write_buf: Vec::new(),
            read_buf: Vec::new(),
            incoming: Vec::new(),
            outgoing: Vec::new(),
            retry: true,
            retry_frequency: 0,
            retry_timeout: 10000000,
        }
    }

    /// A new handle sharing this handle's descriptor: the registry slot
    /// gains one handle, and the clone starts with empty buffers of its
    /// own and this handle's retry policy.
    pub fn clone_handle(&self, registry: &mut DescriptorRegistry) -> (s: Socket)
        requires
            self@.desc_open,
            self@.desc_index < old(registry)@.len(),
            old(registry)@[self@.desc_index as int].handles < usize::MAX,
        ensures
            final(registry)@ == old(registry)@.update(
                self@.desc_index as int,
                SlotView {
                    handles: old(registry)@[self@.desc_index as int].handles + 1,
                    ..old(registry)@[self@.desc_index as int]
                },
            ),
            s@ == (SocketView {
                write_buf: Seq::<u8>::empty(),
                read_buf: Seq::<u8>::empty(),
                incoming: Seq::<u8>::empty(),
                outgoing: Seq::<u8>::empty(),
                ..self@
            }),
    {
        registry.retain(self.desc_index);
        Socket {
            desc_index: self.desc_index,
            fd: self.fd,
            desc_open: true,
            write_buf: Vec::new(),
            read_buf: Vec::new(),
            incoming: Vec::new(),
            outgoing: Vec::new(),
            retry: self.retry,
            retry_frequency: self.retry_frequency,
            retry_timeout: self.retry_timeout,
        }
    }

    /// Release this handle's share of the descriptor. The handle can no
    /// longer read or write; the caller must perform the close operation
    /// exactly when `CloseNow` is reported.
    pub fn release(&mut self, registry: &mut DescriptorRegistry) -> (r: ReleaseOutcome)
        requires
            old(self)@.desc_index < old(registry)@.len(),
        ensures
            !old(self)@.desc_open ==> r == ReleaseOutcome::AlreadyReleased && final(registry)@
                == old(registry)@ && final(self)@ == old(self)@,
            old(self)@.desc_open ==> {
                &&& final(self)@ == (SocketView { desc_open: false, ..old(self)@ })
                &&& final(registry)@ == old(registry)@.update(
                    old(self)@.desc_index as int,
                    spec_release(old(registry)@[old(self)@.desc_index as int]).0,
                )
                &&& r == (if spec_release(old(registry)@[old(self)@.desc_index as int]).1 {
                    ReleaseOutcome::CloseNow(old(registry)@[old(self)@.desc_index as int].fd)
                } else if old(registry)@[old(self)@.desc_index as int].handles == 0 {
                    ReleaseOutcome::AlreadyReleased
                } else {
                    ReleaseOutcome::StillShared
                })
            },
    {
        if !self.desc_open {
            ReleaseOutcome::AlreadyReleased
        } else {
            self.desc_open = false;
            registry.release(self.desc_index)
        }
    }

    /// The raw descriptor number this handle was attached to, for the
    /// driver performing the actual transfers.
    pub fn raw_descriptor(&self) -> (r: i32)
        ensures
            r == self@.fd,
    {
        self.fd
    }

    /// Whether this handle may still use the shared descriptor.
    pub fn is_open(&self) -> (r: bool)
        ensures
            r == self@.desc_open,
    {
        self.desc_open
    }

    /// Enable or disable retrying of short reads.
    pub fn set_retry(&mut self, retry: bool)
        ensures
            final(self)@ == (SocketView { retry, ..old(self)@ }),
    {
        self.retry = retry;
    }

    /// Set the sleep interval, in nanoseconds, between read retries.
    pub fn set_retry_frequency(&mut self, frequency: u32)
        ensures
            final(self)@ == (SocketView { retry_frequency: frequency, ..old(self)@ }),
    {
        self.retry_frequency = frequency;
    }

    /// Set the ceiling, in nanoseconds, on waiting for a read to progress.
    pub fn set_retry_timeout(&mut self, timeout: u32)
        ensures
            final(self)@ == (SocketView { retry_timeout: timeout, ..old(self)@ }),
    {
        self.retry_timeout = timeout;
    }

    /// Drop the bytes accumulated by past reads.
    pub fn clear_read_buf(&mut self)
        ensures
            final(self)@ == (SocketView { read_buf: Seq::<u8>::empty(), ..old(self)@ }),
    {
        self.read_buf.clear();
    }

    /// Drop the bytes queued for the next flush.
    pub fn clear_write_buf(&mut self)
        ensures
            final(self)@ == (SocketView { write_buf: Seq::<u8>::empty(), ..old(self)@ }),
    {
        self.write_buf.clear();
    }

    /// How many bytes past reads have accumulated.
    pub fn len_read_buf(&self) -> (r: usize)
        ensures
            r == self@.read_buf.len(),
    {
        self.read_buf.len()
    }

    /// How many bytes are queued for the next flush.
    pub fn len_write_buf(&self) -> (r: usize)
        ensures
            r == self@.write_buf.len(),
    {
        self.write_buf.len()
    }

    /// How many delivered bytes no logical read has consumed yet.
    pub fn len_incoming(&self) -> (r: usize)
        ensures
            r == self@.incoming.len(),
    {
        self.incoming.len()
    }

    /// How many flushed bytes the driver has not taken for transmission.
    pub fn len_outgoing(&self) -> (r: usize)
        ensures
            r == self@.outgoing.len(),
    {
        self.outgoing.len()
    }

    /// The driver hands over bytes received on the descriptor; they queue
    /// up for the logical reads to consume.
    pub fn deliver(&mut self, chunk: &[u8])
        ensures
            final(self)@ == (SocketView { incoming: old(self)@.incoming + chunk@, ..old(self)@ }),
    {
        let mut i: usize = 0;
        while i < chunk.len()
            invariant
                i <= chunk@.len(),
                self@ == (SocketView {
                    incoming: old(self)@.incoming + chunk@.take(i as int),
                    ..old(self)@
                }),
            decreases chunk@.len() - i,
        {
            self.incoming.push(chunk[i]);
            proof {
                assert(old(self)@.incoming + chunk@.take(i + 1) =~= (old(self)@.incoming
                    + chunk@.take(i as int)).push(chunk@[i as int]));
            }
            i += 1;
        }
        proof {
            assert(chunk@.take(chunk@.len() as int) =~= chunk@);
        }
    }

    /// The driver takes every flushed byte, to transmit on the descriptor.
    pub fn take_outgoing(&mut self) -> (r: Vec<u8>)
        ensures
            r@ == old(self)@.outgoing,
            final(self)@ == (SocketView { outgoing: Seq::<u8>::empty(), ..old(self)@ }),
    {
        let r = self.outgoing.split_off(0);
        proof {
            assert(r@ =~= old(self)@.outgoing);
            assert(final(self)@.outgoing =~= Seq::<u8>::empty());
        }
        r
    }

    /// Queue bytes for the next flush. The write buffer always accepts
    /// them whole; a partial acceptance cannot occur.
    pub fn write_all(&mut self, data: Vec<u8>) -> (r: Result<(), SockError>)
        ensures
            r matches Ok(_),
            final(self)@ == (SocketView { write_buf: old(self)@.write_buf + data@, ..old(self)@ }),
    {
        let mut d = data;
        self.write_buf.append(&mut d);
        Ok(())
    }

    /// Queue `len` zero bytes, as reserved or unused protocol fields.
    pub fn write_discard_bytes(&mut self, len: usize) -> (r: Result<(), SockError>)
        ensures
            r matches Ok(_),
            final(self)@ == (SocketView {
                write_buf: old(self)@.write_buf + zero_bytes(len as nat),
                ..old(self)@
            }),
    {
        let mut zeroes: Vec<u8> = Vec::new();
        let mut i: usize = 0;
        while i < len
            invariant
                i <= len,
                zeroes@ == zero_bytes(i as nat),
            decreases len - i,
        {
            zeroes.push(0);
            proof {
                assert(zero_bytes((i + 1) as nat) =~= zero_bytes(i as nat).push(0u8));
            }
            i += 1;
        }
        self.write_all(zeroes)
    }

    /// Encode a wire value and queue its bytes for the next flush.
    pub fn write_serializable<T: Serializable>(&mut self, to_write: T) -> (r: Result<
        (),
        SockError,
    >)
        ensures
            r matches Ok(_),
            final(self)@ == (SocketView {
                write_buf: old(self)@.write_buf + to_write.wire_bytes(),
                ..old(self)@
            }),
    {
        let encoded = to_write.bytes();
        self.write_all(encoded)
    }

    /// Queue the fewest zero bytes that bring the write buffer's length up
    /// to the next multiple of `mod_bytes`, and report how many were
    /// added: the protocol's alignment rule.
    pub fn write_pad(&mut self, mod_bytes: usize) -> (r: Result<usize, SockError>)
        requires
            mod_bytes >= 1,
        ensures
            r matches Ok(n) && n == pad_len(old(self)@.write_buf.len() as int, mod_bytes as int),
            final(self)@ == (SocketView {
                write_buf: old(self)@.write_buf + zero_bytes(
                    pad_len(old(self)@.write_buf.len() as int, mod_bytes as int) as nat,
                ),
                ..old(self)@
            }),
            (final(self)@.write_buf.len() as int) % (mod_bytes as int) == 0,
    {
        proof {
            lemma_pad_aligns(old(self)@.write_buf.len() as int, mod_bytes as int);
        }
        let len = (mod_bytes - (self.len_write_buf() % mod_bytes)) % mod_bytes;
        match self.write_discard_bytes(len) {
            Ok(_) => Ok(len),
            Err(e) => Err(e),
        }
    }

    /// Transmit the whole write buffer as one flush: its bytes move to
    /// the outgoing queue and the write buffer empties. Fails only on a
    /// handle whose descriptor is already released.
    pub fn flush_all(&mut self) -> (r: Result<(), SockError>)
        ensures
            old(self)@.desc_open ==> (r matches Ok(_) && final(self)@ == (SocketView {
                write_buf: Seq::<u8>::empty(),
                outgoing: old(self)@.outgoing + old(self)@.write_buf,
                ..old(self)@
            })),
            !old(self)@.desc_open ==> (r matches Err(e) && e == SockError::DescriptorReleased
                && final(self)@ == old(self)@),
    {
        if !self.desc_open {
            return Err(SockError::DescriptorReleased);
        }
        let mut queued = self.write_buf.split_off(0);
        self.outgoing.append(&mut queued);
        proof {
            assert(final(self)@.write_buf =~= Seq::<u8>::empty());
            assert(final(self)@.outgoing =~= old(self)@.outgoing + old(self)@.write_buf);
        }
        Ok(())
    }

    /// Move the first `num_bytes` delivered bytes out of the incoming
    /// queue, recording them in the read accumulation buffer as well.
    fn consume_incoming(&mut self, num_bytes: usize) -> (r: Vec<u8>)
        requires
            num_bytes <= old(self)@.incoming.len(),
        ensures
            r@ == old(self)@.incoming.take(num_bytes as int),
            final(self)@ == (SocketView {
                incoming: old(self)@.incoming.skip(num_bytes as int),
                read_buf: old(self)@.read_buf + old(self)@.incoming.take(num_bytes as int),
                ..old(self)@
            }),
    {
        let rest = self.incoming.split_off(num_bytes);
        let mut taken = rest;
        core::mem::swap(&mut self.incoming, &mut taken);
        let mut i: usize = 0;
        while i < taken.len()
            invariant
                i <= taken@.len(),
                taken@ == old(self)@.incoming.take(num_bytes as int),
                self@ == (SocketView {
                    incoming: old(self)@.incoming.skip(num_bytes as int),
                    read_buf: old(self)@.read_buf + taken@.take(i as int),
                    ..old(self)@
                }),
            decreases taken@.len() - i,
        {
            self.read_buf.push(taken[i]);
            proof {
                assert(old(self)@.read_buf + taken@.take(i + 1) =~= (old(self)@.read_buf
                    + taken@.take(i as int)).push(taken@[i as int]));
            }
            i += 1;
        }
        proof {
            assert(taken@.take(taken@.len() as int) =~= taken@);
            assert(old(self)@.read_buf + taken@.take(0) =~= old(self)@.read_buf);
        }
        taken
    }

    /// A logical read of exactly `num_bytes` bytes: complete or failed,
    /// never short. When enough bytes were delivered they are consumed
    /// from the incoming queue, appended to the read accumulation buffer
    /// and returned whole. On a shortfall with retrying enabled the wait
    /// the driver performed has run out, the timeout condition, and the
    /// delivered bytes stay queued for a later attempt; with retrying
    /// disabled whatever arrived is surrendered into the read
    /// accumulation buffer — accumulated bytes are never silently
    /// dropped — and the read reports it was incomplete. On a released
    /// handle it fails outright.
    pub fn read_bytes(&mut self, num_bytes: usize) -> (r: Result<Vec<u8>, SockError>)
        ensures
            old(self)@.desc_open && old(self)@.incoming.len() >= num_bytes ==> (r matches Ok(v)
                && v@ == old(self)@.incoming.take(num_bytes as int) && final(self)@ == (SocketView {
                incoming: old(self)@.incoming.skip(num_bytes as int),
                read_buf: old(self)@.read_buf + old(self)@.incoming.take(num_bytes as int),
                ..old(self)@
            })),
            old(self)@.desc_open && old(self)@.incoming.len() < num_bytes && old(self)@.retry ==> (
            r matches Err(e) && e == SockError::TimedOutRead && final(self)@ == old(self)@),
            old(self)@.desc_open && old(self)@.incoming.len() < num_bytes && !old(self)@.retry
                ==> (r matches Err(e) && e == SockError::IncompleteRead && final(self)@
                == (SocketView {
                incoming: Seq::<u8>::empty(),
                read_buf: old(self)@.read_buf + old(self)@.incoming,
                ..old(self)@
            })),
            !old(self)@.desc_open ==> (r matches Err(e) && e == SockError::DescriptorReleased
                && final(self)@ == old(self)@),
    {
        if !self.desc_open {
            return Err(SockError::DescriptorReleased);
        }
        if self.incoming.len() < num_bytes {
            if self.retry {
                return Err(SockError::TimedOutRead);
            }
            let have = self.incoming.len();
            let _ = self.consume_incoming(have);
            proof {
                assert(old(self)@.incoming.take(old(self)@.incoming.len() as int)
                    =~= old(self)@.incoming);
                assert(old(self)@.incoming.skip(old(self)@.incoming.len() as int)
                    =~= Seq::<u8>::empty());
            }
            return Err(SockError::IncompleteRead);
        }
        Ok(self.consume_incoming(num_bytes))
    }

    /// Read `num_bytes` bytes and decode them as a wire value; a
    /// shortfall fails as in `read_bytes`.
    pub fn read_serializable<T: Serializable>(&mut self, num_bytes: usize) -> (r: Result<
        T,
        SockError,
    >)
        requires
            num_bytes >= T::min_len(),
        ensures
            old(self)@.desc_open && old(self)@.incoming.len() >= num_bytes ==> (r matches Ok(v)
                && v.is_decoding_of(old(self)@.incoming.take(num_bytes as int)) && final(self)@
                == (SocketView {
                incoming: old(self)@.incoming.skip(num_bytes as int),
                read_buf: old(self)@.read_buf + old(self)@.incoming.take(num_bytes as int),
                ..old(self)@
            })),
            old(self)@.desc_open && old(self)@.incoming.len() < num_bytes ==> (r matches Err(e)
                && e == short_read_error(old(self)@.retry)),
            old(self)@.desc_open && old(self)@.incoming.len() < num_bytes && old(self)@.retry
                ==> final(self)@ == old(self)@,
            old(self)@.desc_open && old(self)@.incoming.len() < num_bytes && !old(self)@.retry
                ==> final(self)@ == (SocketView {
                incoming: Seq::<u8>::empty(),
                read_buf: old(self)@.read_buf + old(self)@.incoming,
                ..old(self)@
            }),
            !old(self)@.desc_open ==> (r matches Err(e) && e == SockError::DescriptorReleased
                && final(self)@ == old(self)@),
    {
        match self.read_bytes(num_bytes) {
            Ok(raw) => Ok(T::from_bytes(&raw)),
            Err(e) => Err(e),
        }
    }

    /// Read and drop `num_bytes` bytes (reserved or padding fields); a
    /// shortfall fails as in `read_bytes`.
    pub fn read_discard_bytes(&mut self, num_bytes: usize) -> (r: Result<(), SockError>)
        ensures
            old(self)@.desc_open && old(self)@.incoming.len() >= num_bytes ==> (r matches Ok(_)
                && final(self)@ == (SocketView {
                incoming: old(self)@.incoming.skip(num_bytes as int),
                read_buf: old(self)@.read_buf + old(self)@.incoming.take(num_bytes as int),
                ..old(self)@
            })),
            old(self)@.desc_open && old(self)@.incoming.len() < num_bytes ==> (r matches Err(e)
                && e == short_read_error(old(self)@.retry)),
            old(self)@.desc_open && old(self)@.incoming.len() < num_bytes && old(self)@.retry
                ==> final(self)@ == old(self)@,
            old(self)@.desc_open && old(self)@.incoming.len() < num_bytes && !old(self)@.retry
                ==> final(self)@ == (SocketView {
                incoming: Seq::<u8>::empty(),
                read_buf: old(self)@.read_buf + old(self)@.incoming,
                ..old(self)@
            }),
            !old(self)@.desc_open ==> (r matches Err(e) && e == SockError::DescriptorReleased
                && final(self)@ == old(self)@),
    {
        match self.read_bytes(num_bytes) {
            Ok(_) => Ok(()),
            Err(e) => Err(e),
        }
    }

    /// A logical read of exactly `N` bytes, returned as a fixed-size
    /// array; otherwise as `read_bytes`.
    pub fn read_bytes_raw<const N: usize>(&mut self) -> (r: Result<[u8; N], SockError>)
        ensures
            old(self)@.desc_open && old(self)@.incoming.len() >= N ==> (r matches Ok(a) && a@
                == old(self)@.incoming.take(N as int) && final(self)@ == (SocketView {
                incoming: old(self)@.incoming.skip(N as int),
                read_buf: old(self)@.read_buf + old(self)@.incoming.take(N as int),
                ..old(self)@
            })),
            old(self)@.desc_open && old(self)@.incoming.len() < N ==> (r matches Err(e) && e
                == short_read_error(old(self)@.retry)),
            old(self)@.desc_open && old(self)@.incoming.len() < N && old(self)@.retry ==> final(self)@ == old(self)@,
            old(self)@.desc_open && old(self)@.incoming.len() < N && !old(self)@.retry ==> final(self)@ == (SocketView {
                incoming: Seq::<u8>::empty(),
                read_buf: old(self)@.read_buf + old(self)@.incoming,
                ..old(self)@
            }),
            !old(self)@.desc_open ==> (r matches Err(e) && e == SockError::DescriptorReleased
                && final(self)@ == old(self)@),
    {
        broadcast use vstd::array::group_array_axioms;

        match self.read_bytes(N) {
            Ok(v) => {
                let mut arr: [u8; N] = vstd::array::array_fill_for_copy_types(0u8);
                let mut i: usize = 0;
                while i < N
                    invariant
                        i <= N,
                        v@.len() == N,
                        arr@.len() == N,
                        forall|j: int| 0 <= j < i ==> arr@[j] == v@[j],
                    decreases N - i,
                {
                    arr[i] = v[i];
                    i += 1;
                }
                proof {
                    assert(arr@ =~= v@);
                }
                Ok(arr)
            },
            Err(e) => Err(e),
        }
    }

    /// Clear the read accumulation buffer and discard the fewest bytes
    /// that bring its just-cleared length up to a multiple of `mod_bytes`:
    /// the read-side alignment rule. Reports how many bytes were
    /// discarded.
    pub fn read_pad(&mut self, mod_bytes: usize) -> (r: Result<usize, SockError>)
        requires
            mod_bytes >= 1,
        ensures
            ({
                let skip = pad_len(old(self)@.read_buf.len() as int, mod_bytes as int);
                &&& old(self)@.desc_open && old(self)@.incoming.len() >= skip ==> (r matches Ok(n)
                    && n == skip && final(self)@ == (SocketView {
                    incoming: old(self)@.incoming.skip(skip),
                    read_buf: old(self)@.incoming.take(skip),
                    ..old(self)@
                }))
                &&& old(self)@.desc_open && old(self)@.incoming.len() < skip && old(self)@.retry
                    ==> (r matches Err(e) && e == SockError::TimedOutRead && final(self)@
                    == (SocketView { read_buf: Seq::<u8>::empty(), ..old(self)@ }))
                &&& old(self)@.desc_open && old(self)@.incoming.len() < skip && !old(self)@.retry
                    ==> (r matches Err(e) && e == SockError::IncompleteRead && final(self)@
                    == (SocketView {
                    incoming: Seq::<u8>::empty(),
                    read_buf: old(self)@.incoming,
                    ..old(self)@
                }))
                &&& !old(self)@.desc_open ==> (r matches Err(e) && e
                    == SockError::DescriptorReleased && final(self)@ == (SocketView {
                    read_buf: Seq::<u8>::empty(),
                    ..old(self)@
                }))
            }),
    {
        proof {
            lemma_pad_aligns(old(self)@.read_buf.len() as int, mod_bytes as int);
        }
        let len = self.len_read_buf();
        self.clear_read_buf();
        let skip = (mod_bytes - (len % mod_bytes)) % mod_bytes;
        match self.read_discard_bytes(skip) {
            Ok(_) => {
                proof {
                    assert(Seq::<u8>::empty() + old(self)@.incoming.take(skip as int)
                        =~= old(self)@.incoming.take(skip as int));
                }
                Ok(skip)
            },
            Err(e) => {
                proof {
                    assert(Seq::<u8>::empty() + old(self)@.incoming =~= old(self)@.incoming);
                }
                Err(e)
            },
        }
    }
}

/// What one turn of the retrying read loop decides: the read is complete
/// with exactly the requested bytes; the driver should sleep for the given
/// nanoseconds, probe the descriptor again and deliver what arrives; the
/// wait for progress outlived the timeout ceiling; retrying is disabled
/// and whatever accumulated is returned as a legitimate short read; or the
/// handle's descriptor is already released.
#[derive(Debug)]
pub enum ReadStep {
    Complete(Vec<u8>),
    Wait(u32),
    TimedOut,
    Short(Vec<u8>),
    Closed,
}

impl Socket {
    /// One turn of the bounded-wait read loop for a logical read of
    /// `num_bytes` bytes. The driver reports the nanoseconds elapsed
    /// since the last successful partial read; the turn either consumes
    /// the completed read, tells the driver to sleep and probe again,
    /// times the read out, or (with retrying disabled) consumes whatever
    /// has accumulated as a short read. Delivered bytes are never
    /// silently dropped: on `Wait` and `TimedOut` the state is unchanged.
    pub fn read_step(&mut self, num_bytes: usize, elapsed_nanos: u64) -> (r: ReadStep)
        ensures
            !old(self)@.desc_open ==> (r matches ReadStep::Closed && final(self)@ == old(self)@),
            old(self)@.desc_open && old(self)@.incoming.len() >= num_bytes ==> (r matches
                ReadStep::Complete(v) && v@ == old(self)@.incoming.take(num_bytes as int)
                && final(self)@ == (SocketView {
                incoming: old(self)@.incoming.skip(num_bytes as int),
                read_buf: old(self)@.read_buf + old(self)@.incoming.take(num_bytes as int),
                ..old(self)@
            })),
            old(self)@.desc_open && old(self)@.incoming.len() < num_bytes && old(self)@.retry
                && elapsed_nanos <= old(self)@.retry_timeout ==> (r matches ReadStep::Wait(f) && f
                == old(self)@.retry_frequency && final(self)@ == old(self)@),
            old(self)@.desc_open && old(self)@.incoming.len() < num_bytes && old(self)@.retry
                && elapsed_nanos > old(self)@.retry_timeout ==> (r matches ReadStep::TimedOut
                && final(self)@ == old(self)@),
            old(self)@.desc_open && old(self)@.incoming.len() < num_bytes && !old(self)@.retry
                ==> (r matches ReadStep::Short(v) && v@ == old(self)@.incoming && final(self)@
                == (SocketView {
                incoming: Seq::<u8>::empty(),
                read_buf: old(self)@.read_buf + old(self)@.incoming,
                ..old(self)@
            })),
    {
        if !self.desc_open {
            return ReadStep::Closed;
        }
        if self.incoming.len() >= num_bytes {
            return ReadStep::Complete(self.consume_incoming(num_bytes));
        }
        if self.retry {
            if elapsed_nanos <= self.retry_timeout as u64 {
                ReadStep::Wait(self.retry_frequency)
            } else {
                ReadStep::TimedOut
            }
        } else {
            let have = self.incoming.len();
            let short = self.consume_incoming(have);
            proof {
                assert(old(self)@.incoming.take(old(self)@.incoming.len() as int)
                    =~= old(self)@.incoming);
                assert(old(self)@.incoming.skip(old(self)@.incoming.len() as int)
                    =~= Seq::<u8>::empty());
            }
            ReadStep::Short(short)
        }
    }

    /// One turn of waiting until `num_bytes` delivered bytes sit in the
    /// incoming queue, consuming nothing: for a driver whose next step
    /// parses them in place. It proceeds when enough are there — or at
    /// once when retrying is disabled, a short read being legitimate
    /// then; otherwise it has the driver sleep for the retry interval and
    /// probe again, until the wait for progress outlives the timeout
    /// ceiling.
    pub fn await_step(&self, num_bytes: usize, elapsed_nanos: u64) -> (r: AwaitStep)
        ensures
            !self@.desc_open ==> r is Closed,
            self@.desc_open && self@.incoming.len() >= num_bytes ==> r is Proceed,
            self@.desc_open && self@.incoming.len() < num_bytes && !self@.retry ==> r is Proceed,
            self@.desc_open && self@.incoming.len() < num_bytes && self@.retry && elapsed_nanos
                <= self@.retry_timeout ==> (r matches AwaitStep::Wait(f) && f
                == self@.retry_frequency),
            self@.desc_open && self@.incoming.len() < num_bytes && self@.retry && elapsed_nanos
                > self@.retry_timeout ==> r is TimedOut,
    {
        if !self.desc_open {
            AwaitStep::Closed
        } else if self.incoming.len() >= num_bytes || !self.retry {
            AwaitStep::Proceed
        } else if elapsed_nanos <= self.retry_timeout as u64 {
            AwaitStep::Wait(self.retry_frequency)
        } else {
            AwaitStep::TimedOut
        }
    }
}

/// What one turn of waiting for delivered bytes decides: go on to the
/// parse, sleep for the given nanoseconds and probe again, give the wait
/// up on the timeout, or fail on a released handle.
#[derive(Debug, Clone, Copy, PartialEq, Eq, Structural)]
pub enum AwaitStep {
    Proceed,
    Wait(u32),
    TimedOut,
    Closed,
}

/// Whether one probe of the descriptor ends a drain of the available
/// bytes: a chunk shorter than the probe size is end-of-available-data.
pub fn drain_step(probe_len: usize, got: usize) -> (done: bool)
    ensures
        done == (got < probe_len),
{
    got < probe_len
}

} // verus!
