//! **The boot state machine**, and the transport it gates.
//!
//! States are named for what is *true*, and every latch is a state component: the phase
//! is a [`BootPhase`], and "the queue GPA is valid" is not a flag but the
//! [`QueueState::Bound`] variant — the geometry exists only inside it, so a stale one is
//! unrepresentable.
use vstd::prelude::*;

use crate::element::{
    decode_message, decode_refusal, delivered_end, encode_message, encoded_msg_len,
    max_elements, max_rpc_length, peek_elem_count, peek_len, spec_bytes_to_elements,
    spec_encode_message, ElementLayout, IncomingRpc, OutgoingRpc, RpcMessage, ENVELOPE_LENGTH_WORD,
    RPC_ENVELOPE_SIZE,
};
use crate::fault::GspFault;
use crate::ram::{all_in, ram_bytes, ram_covers, store, GuestRam, RegionMap};
use crate::ring::{
    spec_available_elements, spec_free_elements, spec_tx_header_bytes, MsgqAbi, MsgqGeometry, RxCursor,
    TxCursor, TxHeader, TX_HEADER_WRITE_PTR_OFFSET,
};
use crate::wire::{get_u32, get_u64, le_bytes_u32, le_u32, le_u64};

verus! {

/// Where the fields of `MESSAGE_QUEUE_INIT_ARGUMENTS` are, for one driver version.
///
/// The struct has several shapes across driver versions; the version key supplies this
/// value, and no offset is transcribed anywhere else.
#[derive(Debug, Clone, Copy, PartialEq, Eq)]
pub struct InitArgsLayout {
    /// Offset of `sharedMemPhysAddr` (`u64`).
    pub shared_mem_pa_off: usize,
    /// Offset of `pageTableEntryCount` (`u32`).
    pub pte_count_off: usize,
    /// Offset of `cmdQueueOffset` (`u64`) — a **byte offset into the region**.
    pub cmd_queue_off_off: usize,
    /// Offset of `statQueueOffset` (`u64`) — likewise.
    pub stat_queue_off_off: usize,
    /// Bytes that must be readable for the fields above.
    pub min_size: usize,
    /// Offset of `queueElementHdrSize` (`u64`), on versions that declare it.
    pub element_hdr_size_off: Option<usize>,
}

/// The little-endian `u64` at `off` of `bytes`, or the named truncation.
pub open spec fn spec_read_u64(bytes: Seq<u8>, off: usize) -> Result<u64, GspFault> {
    if off + 8 <= bytes.len() {
        Ok(le_u64(bytes, off as int))
    } else {
        Err(GspFault::Truncated { need: (off + 8) as usize, have: bytes.len() as usize })
    }
}

/// The little-endian `u32` at `off` of `bytes`, or the named truncation.
pub open spec fn spec_read_u32(bytes: Seq<u8>, off: usize) -> Result<u32, GspFault> {
    if off + 4 <= bytes.len() {
        Ok(le_u32(bytes, off as int))
    } else {
        Err(GspFault::Truncated { need: (off + 4) as usize, have: bytes.len() as usize })
    }
}

/// Read a little-endian `u64` field out of a guest structure.
pub fn read_u64(bytes: &[u8], off: usize) -> (r: Result<u64, GspFault>)
    requires
        off + 8 <= usize::MAX,
    ensures
        r == spec_read_u64(bytes@, off),
{
    let end = off + 8;
    if end > bytes.len() {
        return Err(GspFault::Truncated { need: end, have: bytes.len() });
    }
    Ok(get_u64(bytes, off))
}

/// Read a little-endian `u32` field out of a guest structure.
pub fn read_u32(bytes: &[u8], off: usize) -> (r: Result<u32, GspFault>)
    requires
        off + 4 <= usize::MAX,
    ensures
        r == spec_read_u32(bytes@, off),
{
    let end = off + 4;
    if end > bytes.len() {
        return Err(GspFault::Truncated { need: end, have: bytes.len() });
    }
    Ok(get_u32(bytes, off))
}

/// A position past the ring's end wraps by one subtraction.
pub proof fn lemma_mod_once(x: int, n: int)
    requires
        0 < n,
        0 <= x < 2 * n,
    ensures
        x % n == (if x >= n {
            x - n
        } else {
            x
        }),
{
    if x >= n {
        vstd::arithmetic::div_mod::lemma_fundamental_div_mod_converse(x, n, 1, x - n);
    } else {
        vstd::arithmetic::div_mod::lemma_small_mod(x as nat, n as nat);
    }
}

/// Where status-queue slot `s` starts, as a byte offset into the region.
pub open spec fn stat_slot_off(geom: MsgqGeometry, s: nat) -> int {
    geom.stat_off_spec() + geom.header_spec().entry_off + s * geom.header_spec().msg_size
}

/// Where command-queue slot `s` starts, as a byte offset into the region.
pub open spec fn cmd_slot_off(geom: MsgqGeometry, s: nat) -> int {
    geom.cmd_off_spec() + geom.header_spec().entry_off + s * geom.header_spec().msg_size
}

/// Guest memory after the first `k` elements of `run` were written into the status ring
/// from position `write_ptr` on, one element per slot, wrapping at the ring's end.
pub open spec fn ring_written(
    mem: Map<int, u8>,
    geom: MsgqGeometry,
    write_ptr: nat,
    run: Seq<u8>,
    k: nat,
) -> Map<int, u8>
    decreases k,
{
    if k == 0 {
        mem
    } else {
        let es = geom.header_spec().msg_size as nat;
        let n = geom.header_spec().msg_count as nat;
        let prev = ring_written(mem, geom, write_ptr, run, (k - 1) as nat);
        store(
            prev,
            geom.region_spec().addrs(stat_slot_off(geom, ((write_ptr + k - 1) as nat) % n), es),
            run.subrange((k - 1) * es, (k * es) as int),
        )
    }
}

/// The peer's status-queue read pointer, as guest memory holds it.
pub open spec fn peer_read_ptr(mem: Map<int, u8>, geom: MsgqGeometry) -> u32 {
    le_u32(
        geom.region_spec().bytes(
            mem,
            geom.cmd_off_spec() + geom.header_spec().rx_hdr_off,
            4,
        ),
        0,
    )
}

/// What posting `run` through binding `b0` did, given that it returned `r`: on success
/// the ring holds the run's elements from our write position on and the new write
/// pointer is published, having been admitted by the cached free count or, that short, by
/// a live read of the peer's pointer; a refusal of the peer's pointer or a full ring
/// writes nothing; and no refusal moves the binding.
pub open spec fn run_posted(
    b0: QueueBinding,
    b1: QueueBinding,
    mem0: Map<int, u8>,
    mem1: Map<int, u8>,
    run: Seq<u8>,
    r: Result<(), GspFault>,
) -> bool {
    let geom = b0.geometry_spec();
    let n = geom.header_spec().msg_count;
    let es = geom.header_spec().msg_size as nat;
    let elements = run.len() / es;
    let wp = b0.status_cursor_spec().write_ptr;
    let cache = b0.status_cursor_spec().free_cache;
    let peer = peer_read_ptr(mem0, geom);
    let live = spec_free_elements(peer, wp, n);
    let new_wp = (((wp + elements) as nat) % (n as nat)) as u32;
    &&& b1.geometry_spec() == geom
    &&& b1.command_cursor_spec() == b0.command_cursor_spec()
    &&& b1.peer_read_at_bind_spec() == b0.peer_read_at_bind_spec()
    &&& r is Ok ==> {
        let free = if elements <= cache {
            cache
        } else {
            live->Ok_0
        };
        &&& (elements <= cache || (live is Ok && elements <= live->Ok_0))
        &&& mem1 == store(
            ring_written(mem0, geom, wp as nat, run, elements),
            geom.region_spec().addrs(geom.stat_off_spec() + TX_HEADER_WRITE_PTR_OFFSET, 4),
            le_bytes_u32(new_wp),
        )
        &&& b1.status_cursor_spec() == TxCursor {
            write_ptr: new_wp,
            free_cache: (free - elements) as u32,
        }
    }
    &&& r matches Err(e) ==> {
        &&& b1 == b0
        &&& {
            ||| e is GuestRam
            ||| (elements > cache && live is Err && e == live->Err_0 && mem1 == mem0)
            ||| (elements > cache && live is Ok && elements > live->Ok_0 && e
                == GspFault::QueueFull { needed: elements as u32, free: live->Ok_0 } && mem1
                == mem0)
        }
    }
}

/// The peer's status-queue read pointer is guest RAM in `mem`.
pub open spec fn peer_read_ptr_readable(mem: Map<int, u8>, geom: MsgqGeometry) -> bool {
    geom.region_spec().covered(mem, geom.cmd_off_spec() + geom.header_spec().rx_hdr_off, 4)
}

/// Every status-ring slot and the status write pointer are writable guest RAM in `w`.
pub open spec fn status_ring_writable(w: Set<int>, geom: MsgqGeometry) -> bool {
    &&& forall|s: nat|
        s < geom.header_spec().msg_count ==> #[trigger] all_in(
            w,
            geom.region_spec().addrs(stat_slot_off(geom, s), geom.header_spec().msg_size as nat),
        )
    &&& all_in(w, geom.region_spec().addrs(geom.stat_off_spec() + TX_HEADER_WRITE_PTR_OFFSET, 4))
}

/// `e` is a refusal the table gave some command's envelope.
pub open spec fn table_refused<T: FunctionTable>(table: T, e: GspFault) -> bool {
    exists|cmd: IncomingRpc| #[trigger] call_ensures(T::check_envelope, (&table, &cmd), Err::<(), GspFault>(e))
}

/// Everything a service pass touches through `geom` is usable guest RAM: every
/// command-ring slot and the command write pointer are readable, the peer's read pointer
/// is readable, and every status-ring slot, the status write pointer and our
/// acknowledgement are writable.
pub open spec fn queue_ram_usable(mem: Map<int, u8>, w: Set<int>, geom: MsgqGeometry) -> bool {
    &&& cmd_ring_covered(mem, geom)
    &&& geom.region_spec().covered(mem, geom.cmd_off_spec() + TX_HEADER_WRITE_PTR_OFFSET, 4)
    &&& peer_read_ptr_readable(mem, geom)
    &&& status_ring_writable(w, geom)
    &&& all_in(w, geom.region_spec().addrs(geom.stat_off_spec() + geom.header_spec().rx_hdr_off, 4))
}

/// Usability depends on which addresses are guest RAM, not on what they hold.
proof fn lemma_usable_by_dom(m0: Map<int, u8>, m1: Map<int, u8>, w: Set<int>, geom: MsgqGeometry)
    requires
        m0.dom() == m1.dom(),
        queue_ram_usable(m0, w, geom),
    ensures
        queue_ram_usable(m1, w, geom),
{
    assert forall|s: nat| s < geom.header_spec().msg_count implies #[trigger] geom.region_spec().covered(
        m1,
        cmd_slot_off(geom, s),
        geom.header_spec().msg_size as nat,
    ) by {
        assert(geom.region_spec().covered(m0, cmd_slot_off(geom, s), geom.header_spec().msg_size as nat));
    }
}

/// Flow control admits a run of `elements` through `b` with guest memory `mem`: the cached
/// free count suffices, or the peer's read pointer leaves room.
pub open spec fn run_admitted(b: QueueBinding, mem: Map<int, u8>, elements: nat) -> bool {
    let geom = b.geometry_spec();
    let live = spec_free_elements(
        peer_read_ptr(mem, geom),
        b.status_cursor_spec().write_ptr,
        geom.header_spec().msg_count,
    );
    elements <= b.status_cursor_spec().free_cache || (live is Ok && elements <= live->Ok_0)
}

/// A live queue binding: the geometry **and** both cursors, as one value.
///
/// There is no public field and no constructor but the bind's, so the geometry, both
/// cursors and the read pointer sampled at the bind die together.
#[derive(Debug, PartialEq, Eq)]
pub struct QueueBinding {
    geom: MsgqGeometry,
    stat: TxCursor,
    cmd: RxCursor,
    /// The peer's status-queue read pointer as it read at the moment of the bind — what
    /// makes "the guest has linked to the header we published" observable.
    peer_read_at_bind: u32,
}

impl QueueBinding {
    #[verifier::type_invariant]
    spec fn positioned(self) -> bool {
        &&& self.stat.write_ptr < self.geom.header_spec().msg_count
        &&& self.stat.free_cache < self.geom.header_spec().msg_count
        &&& self.cmd.read_ptr < self.geom.header_spec().msg_count
    }

    /// The bound geometry.
    pub closed spec fn geometry_spec(&self) -> MsgqGeometry {
        self.geom
    }

    /// Our status-queue cursor.
    pub closed spec fn status_cursor_spec(&self) -> TxCursor {
        self.stat
    }

    /// Our command-queue cursor.
    pub closed spec fn command_cursor_spec(&self) -> RxCursor {
        self.cmd
    }

    /// The peer's status-queue read pointer at the bind.
    pub closed spec fn peer_read_at_bind_spec(&self) -> u32 {
        self.peer_read_at_bind
    }

    /// The bound geometry.
    pub fn geometry(&self) -> (r: &MsgqGeometry)
        ensures
            *r == self.geometry_spec(),
    {
        &self.geom
    }

    /// Our status-queue cursor; its position and cached free count are inside the ring.
    pub fn status_cursor(&self) -> (r: TxCursor)
        ensures
            r == self.status_cursor_spec(),
            r.write_ptr < self.geometry_spec().header_spec().msg_count,
            r.free_cache < self.geometry_spec().header_spec().msg_count,
    {
        proof {
            use_type_invariant(self);
        }
        self.stat
    }

    /// Our command-queue cursor; its position is inside the ring.
    pub fn command_cursor(&self) -> (r: RxCursor)
        ensures
            r == self.command_cursor_spec(),
            r.read_ptr < self.geometry_spec().header_spec().msg_count,
    {
        proof {
            use_type_invariant(self);
        }
        self.cmd
    }

    /// Write an encoded run into the status ring and publish the new write pointer.
    ///
    /// The producer's cached free count is consulted first, and the peer's read pointer
    /// is read live only if the cache is short — `msgqTxSubmitBuffers`' own order. A run
    /// the ring cannot take without overwriting unconsumed elements is refused with
    /// [`GspFault::QueueFull`], which is retryable, and nothing is written.
    pub fn post_run<R: GuestRam>(&mut self, ram: &mut R, run: &[u8]) -> (r: Result<(), GspFault>)
        requires
            old(self).geometry_spec().header_spec().msg_size > 0,
            run@.len() % (old(self).geometry_spec().header_spec().msg_size as nat) == 0,
            run@.len() / (old(self).geometry_spec().header_spec().msg_size as nat) <= u32::MAX,
        ensures
            run_posted(*old(self), *final(self), old(ram).memory(), final(ram).memory(), run@, r),
            final(ram).writable() == old(ram).writable(),
            final(ram).memory().dom() == old(ram).memory().dom(),
            r matches Err(GspFault::GuestRam(_)) && peer_read_ptr_readable(
                old(ram).memory(),
                old(self).geometry_spec(),
            ) ==> run_admitted(
                *old(self),
                old(ram).memory(),
                run@.len() / (old(self).geometry_spec().header_spec().msg_size as nat),
            ),
            peer_read_ptr_readable(old(ram).memory(), old(self).geometry_spec())
                && status_ring_writable(old(ram).writable(), old(self).geometry_spec()) ==> !(
            r matches Err(GspFault::GuestRam(_))),
    {
        proof {
            use_type_invariant(&*self);
        }
        let count = self.geom.msg_count();
        let n = count.get();
        let es = self.geom.element_size();
        let elements = (run.len() / es as usize) as u32;
        let wp = self.stat.write_ptr;
        let mut free = self.stat.free_cache;
        if elements > free {
            let peer = match self.geom.region().read_u32(ram, self.geom.peer_stat_read_ptr_off()) {
                Ok(v) => v,
                Err(e) => {
                    return Err(e);
                },
            };
            free = match crate::ring::free_elements(peer, wp, count) {
                Ok(f) => f,
                Err(e) => {
                    return Err(e);
                },
            };
            if elements > free {
                return Err(GspFault::QueueFull { needed: elements, free });
            }
        }
        proof {
            vstd::arithmetic::div_mod::lemma_fundamental_div_mod(run@.len() as int, es as int);
            assert(run@.len() == elements * es) by (nonlinear_arith)
                requires
                    run@.len() % (es as nat) == 0,
                    run@.len() == es * (run@.len() / (es as nat)) + run@.len() % (es as nat),
                    elements == run@.len() / (es as nat),
            ;
            assert(free < n) by {
                if elements > self.stat.free_cache {
                    lemma_mod_once(wp as int, n as int);
                }
            }
        }
        assert(run@.len() == run.len());
        let ghost mem0 = ram.memory();
        let ghost geom = self.geom;
        let mut i: u32 = 0;
        while i < elements
            invariant
                geom == self.geom,
                *self == *old(self),
                self.stat.free_cache < n,
                self.cmd.read_ptr < n,
                geom.holds(),
                n == geom.header_spec().msg_count,
                count@ == n,
                es == geom.header_spec().msg_size,
                es > 0,
                wp < n,
                elements <= free,
                free < n,
                run@.len() == elements * es,
                run@.len() <= usize::MAX,
                i <= elements,
                ram.memory() == ring_written(mem0, geom, wp as nat, run@, i as nat),
                ram.writable() == old(ram).writable(),
                ram.memory().dom() == old(ram).memory().dom(),
                geom == old(self).geometry_spec(),
                elements == run@.len() / (es as nat),
                run_admitted(*old(self), old(ram).memory(), elements as nat),
            decreases elements - i,
        {
            let pos: u32 = if wp >= n - i {
                wp - (n - i)
            } else {
                wp + i
            };
            proof {
                lemma_mod_once((wp + i) as int, n as int);
            }
            let slot = count.slot(pos);
            proof {
                vstd::arithmetic::div_mod::lemma_small_mod(pos as nat, n as nat);
            }
            let off = self.geom.stat_element_off(slot);
            proof {
                assert(i * es + es <= elements * es) by (nonlinear_arith)
                    requires
                        i < elements,
                ;
            }
            let at: usize = i as usize * es as usize;
            let chunk = vstd::slice::slice_subrange(run, at, at + es as usize);
            proof {
                if status_ring_writable(old(ram).writable(), geom) {
                    assert(all_in(
                        old(ram).writable(),
                        geom.region_spec().addrs(stat_slot_off(geom, pos as nat), es as nat),
                    ));
                }
            }
            match self.geom.region().write(ram, off, chunk) {
                Ok(()) => {},
                Err(e) => {
                    return Err(e);
                },
            }
            proof {
                assert(at == i * es);
                assert((i + 1) * es == i * es + es) by (nonlinear_arith);
            }
            i = i + 1;
        }
        let new_wp: u32 = if wp >= n - elements {
            wp - (n - elements)
        } else {
            wp + elements
        };
        proof {
            lemma_mod_once((wp + elements) as int, n as int);
        }
        match self.geom.region().write_u32(ram, self.geom.stat_write_ptr_off(), new_wp) {
            Ok(()) => {},
            Err(e) => {
                return Err(e);
            },
        }
        assert(new_wp < n);
        assert(free - elements < n);
        assert(self.cmd.read_ptr < n);
        self.stat = TxCursor { write_ptr: new_wp, free_cache: free - elements };
        Ok(())
    }
}

impl Clone for QueueBinding {
    fn clone(&self) -> (r: QueueBinding)
        ensures
            r.geometry_spec().region_spec().pages_spec() == self.geometry_spec().region_spec().pages_spec(),
            r.geometry_spec().region_spec().page_size_spec() == self.geometry_spec().region_spec().page_size_spec(),
            r.geometry_spec().cmd_off_spec() == self.geometry_spec().cmd_off_spec(),
            r.geometry_spec().stat_off_spec() == self.geometry_spec().stat_off_spec(),
            r.geometry_spec().header_spec() == self.geometry_spec().header_spec(),
            r.status_cursor_spec() == self.status_cursor_spec(),
            r.command_cursor_spec() == self.command_cursor_spec(),
            r.peer_read_at_bind_spec() == self.peer_read_at_bind_spec(),
    {
        proof {
            use_type_invariant(self);
        }
        QueueBinding {
            geom: self.geom.clone(),
            stat: self.stat,
            cmd: self.cmd,
            peer_read_at_bind: self.peer_read_at_bind,
        }
    }
}

/// Where the guest's boot stage is. Named for what is *true*, not for the step that got
/// there.
#[derive(Debug, Clone, Copy, PartialEq, Eq)]
pub enum BootPhase {
    /// Power-on, or after a device reset: nothing has run.
    Cold,
    /// The GSP processor was started and the protected region is up.
    ProtectedRegionUp,
    /// The firmware was loaded.
    Booted,
    /// The guest drained `GSP_INIT_DONE` — observed, not assumed.
    Running,
    /// The guest's unload command was answered; the next processor start is the teardown.
    Suspending,
    /// A life ended: the binding was dropped.
    Halted,
}

/// Bound, or not. The only two possibilities, and the geometry lives in exactly one.
#[derive(Debug, Clone, PartialEq, Eq)]
pub enum QueueState {
    /// No queue. Any doorbell is a refusal, and **no guest RAM is read**.
    Unbound,
    /// A validated binding.
    Bound(QueueBinding),
}

/// Which transition fired. Recorded on every step, so a test asserts the transition it
/// claims to cover actually fired.
#[derive(Debug, Clone, Copy, PartialEq, Eq, PartialOrd, Ord, Hash)]
pub enum Transition {
    /// GSP processor start from `Cold`/`Halted` → `ProtectedRegionUp`.
    E1,
    /// GSP processor start while `Suspending` → `Halted`: the trailing teardown start. No
    /// rebind, no re-posted `INIT_DONE`.
    E2,
    /// GSP processor start while already booted — a no-op.
    E3,
    /// Teardown → the protected region down, `Halted`.
    E4,
    /// Firmware loaded → `Booted`.
    E5,
    /// Both boot-args halves seen → publish: bind the queues, write the status tx header,
    /// post `GSP_INIT_DONE`.
    E6,
    /// Doorbell while bound → service the command ring.
    E7,
    /// Doorbell while unbound **and a binding has already existed in this device life**
    /// (`Halted`) → loud refusal, zero guest-RAM reads.
    E8,
    /// Doorbell while unbound and **no binding has ever existed in this device life** — a
    /// healthy boot order, not an attack. Reads zero guest RAM, like `E8`.
    E12,
    /// The guest's unload command serviced → reply first, then `Suspending`.
    E9,
    /// The status-queue interrupt edge is cleared.
    E10,
    /// Device reset → `Cold`, unbound, every counter zero.
    E11,
    /// The guest drained `GSP_INIT_DONE` → `Running`.
    Running,
}

/// What the caller wants replied to a command.
#[derive(Debug, Clone, PartialEq, Eq)]
pub struct Reply {
    /// `rpc_result`, and `rpc_result_private` with it.
    pub rpc_result: u32,
    /// The reply body.
    pub body: Vec<u8>,
}

/// Where the LibOS region array's entries are, and which id marks the `RMARGS` region.
#[derive(Debug, Clone, Copy, PartialEq, Eq)]
pub struct LibosRegionLayout {
    /// Bytes from one entry to the next.
    pub entry_stride: usize,
    /// How many entries the descriptor declares at most.
    pub max_entries: usize,
    /// Offset of an entry's `id8` (`u64`).
    pub id_offset: usize,
    /// Offset of an entry's physical address (`u64`).
    pub pa_offset: usize,
    /// The `id8` of the `RMARGS` region.
    pub rmargs_id: u64,
}

/// Everything the ABI layer supplies to the faked GSP, as one value — so a second driver
/// version is a second value and never a second code path.
#[derive(Debug, Clone, Copy, PartialEq, Eq)]
pub struct GspAbi {
    /// The `msgq` library constants.
    pub msgq: MsgqAbi,
    /// The element header shape.
    pub element: ElementLayout,
    /// The RPC envelope's header version.
    pub header_version: u32,
    /// The RPC envelope's valid signature word.
    pub signature: u32,
    /// The function id of `GSP_INIT_DONE`.
    pub init_done_function: u32,
    /// `queueElementSizeMax`.
    pub element_size_max: u32,
    /// Where the init-args fields are.
    pub init_args: InitArgsLayout,
}

/// The faked GSP: one resettable value.
#[derive(Debug, PartialEq, Eq)]
pub struct GspFsm {
    abi: GspAbi,
    phase: BootPhase,
    queue: QueueState,
    swgen0_pending: bool,
    mailbox_lo: u32,
    mailbox_hi: u32,
    boot_args_seen: (bool, bool),
    init_done_posted: bool,
    stat_seq: u32,
    cmd_seq: u32,
    cmd_read_ptr: u32,
    region_identity: Option<u64>,
    max_entries: u32,
}

/// The state of a GSP, field for field.
pub struct GspState {
    /// The ABI it was built with.
    pub abi: GspAbi,
    /// The boot phase.
    pub phase: BootPhase,
    /// Whether a queue is bound.
    pub bound: bool,
    /// Whether a status-queue interrupt is owed.
    pub swgen0_pending: bool,
    /// The boot-args mailbox shadows, as read back.
    pub mailbox_lo: u32,
    /// The boot-args mailbox shadows, as read back.
    pub mailbox_hi: u32,
    /// Which boot-args halves were written since the last publish or teardown.
    pub boot_args_seen: (bool, bool),
    /// Whether `GSP_INIT_DONE` was posted to the current binding.
    pub init_done_posted: bool,
    /// The status stream's next sequence number.
    pub stat_seq: u32,
    /// The sequence number the next command must carry.
    pub cmd_seq: u32,
    /// Our position in the command ring.
    pub cmd_read_ptr: u32,
    /// The region the last bind used.
    pub region_identity: Option<u64>,
    /// The bound on table and region-array entries read.
    pub max_entries: u32,
}

/// A cold device built with `abi`.
pub open spec fn cold_state(abi: GspAbi) -> GspState {
    GspState {
        abi,
        phase: BootPhase::Cold,
        bound: false,
        swgen0_pending: false,
        mailbox_lo: 0,
        mailbox_hi: 0,
        boot_args_seen: (false, false),
        init_done_posted: false,
        stat_seq: 0,
        cmd_seq: 0,
        cmd_read_ptr: 0,
        region_identity: None,
        max_entries: 4096,
    }
}

/// `s` after a life ends: `Halted`, unbound, no owed interrupt, no `INIT_DONE` posted,
/// and the boot-args pair forgotten (the mailbox shadows keep reading back what was
/// written). Sequence numbers and the command position are kept.
pub open spec fn halted(s: GspState) -> GspState {
    GspState {
        phase: BootPhase::Halted,
        bound: false,
        init_done_posted: false,
        swgen0_pending: false,
        boot_args_seen: (false, false),
        ..s
    }
}

/// What a GSP processor start does to the phase, and which transition it is.
pub open spec fn spec_startcpu(s: GspState) -> (GspState, Transition) {
    match s.phase {
        BootPhase::Cold | BootPhase::Halted => (
            GspState { phase: BootPhase::ProtectedRegionUp, ..s },
            Transition::E1,
        ),
        BootPhase::Suspending => (halted(s), Transition::E2),
        _ => (s, Transition::E3),
    }
}

impl GspFsm {
    /// The state, field for field.
    pub closed spec fn state(&self) -> GspState {
        GspState {
            abi: self.abi,
            phase: self.phase,
            bound: self.queue is Bound,
            swgen0_pending: self.swgen0_pending,
            mailbox_lo: self.mailbox_lo,
            mailbox_hi: self.mailbox_hi,
            boot_args_seen: self.boot_args_seen,
            init_done_posted: self.init_done_posted,
            stat_seq: self.stat_seq,
            cmd_seq: self.cmd_seq,
            cmd_read_ptr: self.cmd_read_ptr,
            region_identity: self.region_identity,
            max_entries: self.max_entries,
        }
    }

    /// The binding, where a queue is bound.
    pub closed spec fn binding(&self) -> QueueBinding
        recommends
            self.state().bound,
    {
        self.queue->Bound_0
    }

    /// A cold device.
    pub fn new(abi: GspAbi) -> (r: GspFsm)
        ensures
            r.state() == cold_state(abi),
    {
        GspFsm {
            abi,
            phase: BootPhase::Cold,
            queue: QueueState::Unbound,
            swgen0_pending: false,
            mailbox_lo: 0,
            mailbox_hi: 0,
            boot_args_seen: (false, false),
            init_done_posted: false,
            stat_seq: 0,
            cmd_seq: 0,
            cmd_read_ptr: 0,
            region_identity: None,
            max_entries: 4096,
        }
    }

    /// The current phase.
    pub fn phase(&self) -> (r: BootPhase)
        ensures
            r == self.state().phase,
    {
        self.phase
    }

    /// The current queue state.
    pub fn queue(&self) -> (r: &QueueState)
        ensures
            (*r is Bound) == self.state().bound,
            self.state().bound ==> *r == QueueState::Bound(self.binding()),
    {
        &self.queue
    }

    /// The boot-args mailbox shadows, `(lo, hi)`, as a guest reading them back sees them.
    pub fn boot_args(&self) -> (r: (u32, u32))
        ensures
            r == (self.state().mailbox_lo, self.state().mailbox_hi),
    {
        (self.mailbox_lo, self.mailbox_hi)
    }

    /// Whether a status-queue interrupt is owed to the guest.
    pub fn status_irq_pending(&self) -> (r: bool)
        ensures
            r == self.state().swgen0_pending,
    {
        self.swgen0_pending
    }

    /// The reset, and it is total: the value is rebuilt, so no field can be forgotten.
    pub fn device_reset(&mut self) -> (t: Transition)
        ensures
            t == Transition::E11,
            final(self).state() == cold_state(old(self).state().abi),
    {
        *self = GspFsm::new(self.abi);
        Transition::E11
    }

    fn enter_halted(&mut self)
        ensures
            final(self).state() == halted(old(self).state()),
    {
        self.phase = BootPhase::Halted;
        self.queue = QueueState::Unbound;
        self.init_done_posted = false;
        self.swgen0_pending = false;
        self.boot_args_seen = (false, false);
    }

    /// A GSP processor start: `E1` from `Cold`/`Halted`, `E2` — the trailing teardown
    /// start, which drops the binding so the next life cannot inherit this one's queue —
    /// from `Suspending`, and the no-op `E3` once booted.
    pub fn gsp_startcpu(&mut self) -> (t: Transition)
        ensures
            (final(self).state(), t) == spec_startcpu(old(self).state()),
    {
        match self.phase {
            BootPhase::Cold | BootPhase::Halted => {
                self.phase = BootPhase::ProtectedRegionUp;
                Transition::E1
            },
            BootPhase::Suspending => {
                self.enter_halted();
                Transition::E2
            },
            _ => Transition::E3,
        }
    }

    /// Teardown (`E4`): the life ends and the binding is dropped by value.
    pub fn teardown(&mut self) -> (t: Transition)
        ensures
            t == Transition::E4,
            final(self).state() == halted(old(self).state()),
    {
        self.enter_halted();
        Transition::E4
    }

    /// Firmware loaded (`E5`): `Booted`, but only from `ProtectedRegionUp` — reaching
    /// `Booted` from anywhere else is refused by the phase graph, silently.
    pub fn firmware_loaded(&mut self) -> (t: Option<Transition>)
        ensures
            old(self).state().phase == BootPhase::ProtectedRegionUp ==> t == Some(Transition::E5)
                && final(self).state() == (GspState { phase: BootPhase::Booted, ..old(self).state() }),
            old(self).state().phase != BootPhase::ProtectedRegionUp ==> t is None
                && final(self).state() == old(self).state(),
    {
        match self.phase {
            BootPhase::ProtectedRegionUp => {
                self.phase = BootPhase::Booted;
                Some(Transition::E5)
            },
            _ => None,
        }
    }

    /// The low boot-args half was written.
    pub fn boot_args_lo(&mut self, v: u32)
        ensures
            final(self).state() == (GspState {
                mailbox_lo: v,
                boot_args_seen: (true, old(self).state().boot_args_seen.1),
                ..old(self).state()
            }),
    {
        self.mailbox_lo = v;
        self.boot_args_seen = (true, self.boot_args_seen.1);
    }

    /// The high boot-args half was written.
    pub fn boot_args_hi(&mut self, v: u32)
        ensures
            final(self).state() == (GspState {
                mailbox_hi: v,
                boot_args_seen: (old(self).state().boot_args_seen.0, true),
                ..old(self).state()
            }),
    {
        self.mailbox_hi = v;
        self.boot_args_seen = (self.boot_args_seen.0, true);
    }

    /// The guest's interrupt handler cleared the status-queue edge (`E10`).
    pub fn clear_status_irq(&mut self) -> (t: Transition)
        ensures
            t == Transition::E10,
            final(self).state() == (GspState { swgen0_pending: false, ..old(self).state() }),
    {
        self.swgen0_pending = false;
        Transition::E10
    }

    /// How a doorbell routes, decided before any guest RAM is read: `E7` (service the
    /// ring) while bound; while unbound, the refusal [`GspFault::QueueNotBound`] once a
    /// binding has existed in this life (`Halted`), and the harmless `E12` otherwise.
    pub fn doorbell_route(&self) -> (r: Result<Transition, GspFault>)
        ensures
            self.state().bound ==> r == Ok::<Transition, GspFault>(Transition::E7),
            !self.state().bound && self.state().phase == BootPhase::Halted ==> r == Err::<
                Transition,
                GspFault,
            >(GspFault::QueueNotBound),
            !self.state().bound && self.state().phase != BootPhase::Halted ==> r == Ok::<
                Transition,
                GspFault,
            >(Transition::E12),
    {
        match &self.queue {
            QueueState::Bound(_) => Ok(Transition::E7),
            QueueState::Unbound => match self.phase {
                BootPhase::Halted => Err(GspFault::QueueNotBound),
                _ => Ok(Transition::E12),
            },
        }
    }
}

/// The next sequence number: one more, wrapping at the top.
pub open spec fn next_seq(s: u32) -> u32 {
    if s == u32::MAX {
        0
    } else {
        (s + 1) as u32
    }
}

/// What posting `rpc` would emit for a GSP in state `s` whose status elements are `es`
/// bytes: the encoded run at the status stream's next sequence number, or the refusal.
pub open spec fn post_run_for(s: GspState, es: u32, rpc: RpcMessage) -> Result<Seq<u8>, GspFault> {
    spec_encode_message(
        s.abi.element,
        s.abi.header_version,
        s.abi.signature,
        es,
        s.abi.element_size_max,
        s.stat_seq,
        rpc,
    )
}

impl GspFsm {
    /// Post one message onto the status queue: encode it at the status stream's next
    /// sequence number, write it into the ring under flow control, publish the write
    /// pointer, and owe the guest an interrupt.
    pub fn post<R: GuestRam>(&mut self, ram: &mut R, rpc: &OutgoingRpc) -> (r: Result<(), GspFault>)
        ensures
            !old(self).state().bound ==> r == Err::<(), GspFault>(GspFault::QueueNotBound)
                && final(self).state() == old(self).state() && final(ram).memory() == old(
                ram,
            ).memory(),
            old(self).state().bound ==> ({
                let s0 = old(self).state();
                let b0 = old(self).binding();
                let es = b0.geometry_spec().header_spec().msg_size;
                match post_run_for(s0, es, rpc@) {
                    Err(e) => r == Err::<(), GspFault>(e) && final(self).state() == s0
                        && final(self).binding() == b0 && final(ram).memory() == old(
                        ram,
                    ).memory(),
                    Ok(run) => {
                        &&& final(self).state().bound
                        &&& run_posted(
                            b0,
                            final(self).binding(),
                            old(ram).memory(),
                            final(ram).memory(),
                            run,
                            r,
                        )
                        &&& r is Ok ==> final(self).state() == (GspState {
                            stat_seq: next_seq(s0.stat_seq),
                            swgen0_pending: true,
                            ..s0
                        })
                        &&& r is Err ==> final(self).state() == s0
                        &&& ((r matches Err(GspFault::GuestRam(_))) && peer_read_ptr_readable(
                            old(ram).memory(),
                            b0.geometry_spec(),
                        ) ==> run_admitted(b0, old(ram).memory(), run.len() / (es as nat)))
                        &&& (peer_read_ptr_readable(old(ram).memory(), b0.geometry_spec())
                            && status_ring_writable(old(ram).writable(), b0.geometry_spec()) ==> !(
                        r matches Err(GspFault::GuestRam(_))))
                    },
                }
            }),
            final(ram).writable() == old(ram).writable(),
            final(ram).memory().dom() == old(ram).memory().dom(),
    {
        let mut q = QueueState::Unbound;
        std::mem::swap(&mut q, &mut self.queue);
        let mut b = match q {
            QueueState::Bound(b) => b,
            QueueState::Unbound => {
                self.queue = QueueState::Unbound;
                return Err(GspFault::QueueNotBound);
            },
        };
        let es = b.geometry().element_size();
        let run = match encode_message(
            &self.abi.element,
            self.abi.header_version,
            self.abi.signature,
            es,
            self.abi.element_size_max,
            self.stat_seq,
            rpc,
        ) {
            Ok(v) => v,
            Err(e) => {
                self.queue = QueueState::Bound(b);
                return Err(e);
            },
        };
        let _hdr = self.abi.element.hdr_size();
        proof {
            crate::roundtrip::lemma_encoded_len(
                self.abi.element,
                self.abi.header_version,
                self.abi.signature,
                es,
                self.abi.element_size_max,
                self.stat_seq,
                rpc@,
            );
            let elements = spec_bytes_to_elements(
                encoded_msg_len(self.abi.element, rpc@) as u32,
                es,
            );
            vstd::arithmetic::div_mod::lemma_fundamental_div_mod_converse(
                run@.len() as int,
                es as int,
                elements as int,
                0,
            );
        }
        let posted = b.post_run(ram, run.as_slice());
        self.queue = QueueState::Bound(b);
        match posted {
            Ok(()) => {
                self.stat_seq = self.stat_seq.wrapping_add(1);
                self.swgen0_pending = true;
                Ok(())
            },
            Err(e) => Err(e),
        }
    }
}

/// The bytes of command-queue slot `s` in `mem`.
pub open spec fn cmd_element(mem: Map<int, u8>, geom: MsgqGeometry, s: nat) -> Seq<u8> {
    geom.region_spec().bytes(mem, cmd_slot_off(geom, s), geom.header_spec().msg_size as nat)
}

/// The `k` command elements from ring position `rp` on, wrapping, concatenated.
pub open spec fn cmd_run(mem: Map<int, u8>, geom: MsgqGeometry, rp: nat, k: nat) -> Seq<u8>
    decreases k,
{
    if k == 0 {
        seq![]
    } else {
        cmd_run(mem, geom, rp, (k - 1) as nat) + cmd_element(
            mem,
            geom,
            ((rp + k - 1) as nat) % (geom.header_spec().msg_count as nat),
        )
    }
}

/// The coverage of the command whose first element is `first`, and how many elements the
/// ring moves by for it — the producer's own `elemCount` where the layout carries one,
/// checked against the staging bound and then against the count the declared length
/// derives; the derivation where it does not — or why it is refused.
pub open spec fn spec_command_extent(
    layout: ElementLayout,
    es: u32,
    esm: u32,
    first: Seq<u8>,
) -> Result<(u32, u32), GspFault> {
    let hdr = layout.hdr_size_spec();
    let at = hdr + ENVELOPE_LENGTH_WORD * 4;
    if first.len() < at + 4 {
        Err(GspFault::Truncated { need: (at + 4) as usize, have: first.len() as usize })
    } else {
        let declared = le_u32(first, at);
        let max = max_rpc_length(hdr, esm);
        if declared < RPC_ENVELOPE_SIZE || declared > max {
            Err(GspFault::MsgLenOutOfRange { declared, min: RPC_ENVELOPE_SIZE, max })
        } else {
            let msg_len = (hdr + declared) as u32;
            let derived = spec_bytes_to_elements(msg_len, es);
            match layout.elem_count_off_spec() {
                None => Ok((msg_len, derived)),
                Some(o) => {
                    if first.len() < o + 4 {
                        Err(
                            GspFault::Truncated {
                                need: (o + 4) as usize,
                                have: first.len() as usize,
                            },
                        )
                    } else {
                        let d = le_u32(first, o as int);
                        let max_el = if es == 0 {
                            0
                        } else {
                            (esm / es) as u32
                        };
                        if d > max_el {
                            Err(GspFault::ElementCountOutOfRange { count: d, max: max_el })
                        } else if d != derived {
                            Err(GspFault::ElementCountMismatch { declared: d, derived })
                        } else {
                            Ok((msg_len, d))
                        }
                    }
                },
            }
        }
    }
}

/// What receiving the command at ring position `rp` gives, with `avail` elements
/// available and `expect` the sequence number it must carry: the refusal of its extent,
/// `None` while the producer has not finished writing it, the refusal of its run, or the
/// decoded command (as [`decode_message`] gives it) with the elements it occupies.
pub open spec fn received(
    layout: ElementLayout,
    esm: u32,
    geom: MsgqGeometry,
    mem: Map<int, u8>,
    rp: nat,
    expect: u32,
    avail: u32,
    r: Result<Option<(IncomingRpc, u32)>, GspFault>,
) -> bool {
    let es = geom.header_spec().msg_size;
    let hdr = layout.hdr_size_spec() as int;
    match spec_command_extent(layout, es, esm, cmd_element(mem, geom, rp)) {
        Err(e) => r == Err::<Option<(IncomingRpc, u32)>, GspFault>(e),
        Ok((msg_len, k)) => if k > avail {
            r == Ok::<Option<(IncomingRpc, u32)>, GspFault>(None)
        } else {
            let run = cmd_run(mem, geom, rp, k as nat);
            match decode_refusal(layout, run, msg_len, expect) {
                Some(e) => r == Err::<Option<(IncomingRpc, u32)>, GspFault>(e),
                None => r matches Ok(Some((m, kk))) && kk == k && m.seq_num == expect
                    && m.elements == k && m.envelope@ == run.subrange(
                    hdr,
                    hdr + RPC_ENVELOPE_SIZE,
                ) && m.payload@ == run.subrange(hdr + RPC_ENVELOPE_SIZE, msg_len as int)
                    && m.delivered@ == run.subrange(
                    hdr + RPC_ENVELOPE_SIZE,
                    delivered_end(run.len(), k, es, (hdr + RPC_ENVELOPE_SIZE) as nat) as int,
                ),
            }
        },
    }
}

/// Every element slot of the command ring is guest RAM in `mem`.
pub open spec fn cmd_ring_covered(mem: Map<int, u8>, geom: MsgqGeometry) -> bool {
    forall|s: nat|
        s < geom.header_spec().msg_count ==> #[trigger] geom.region_spec().covered(
            mem,
            cmd_slot_off(geom, s),
            geom.header_spec().msg_size as nat,
        )
}

/// Read command-queue slot `slot` whole.
fn read_cmd_element<R: GuestRam>(ram: &mut R, geom: &MsgqGeometry, slot: crate::ring::Slot) -> (r:
    Result<Vec<u8>, GspFault>)
    requires
        slot@ < geom.header_spec().msg_count,
    ensures
        final(ram).memory() == old(ram).memory(),
        final(ram).writable() == old(ram).writable(),
        geom.region_spec().covered(
            old(ram).memory(),
            cmd_slot_off(*geom, slot@ as nat),
            geom.header_spec().msg_size as nat,
        ) ==> r is Ok,
        r matches Ok(v) ==> v@ == cmd_element(old(ram).memory(), *geom, slot@ as nat),
        r matches Err(e) ==> e is GuestRam,
{
    let es = geom.element_size();
    let off = geom.cmd_element_off(slot);
    let mut buf: Vec<u8> = vec![0u8; es as usize];
    match geom.region().read(ram, off, buf.as_mut_slice()) {
        Ok(()) => {},
        Err(e) => {
            return Err(e);
        },
    }
    Ok(buf)
}

impl GspFsm {
    /// Read the command at our position in the command ring without committing to it:
    /// its first element gives its extent, and its whole run, once the producer has
    /// written all of it, is verified and decoded at the sequence number the next
    /// command must carry. `avail` is how many elements the producer has made available.
    ///
    /// Reads guest RAM and writes none. A refused RAM access is reported as such; every
    /// other outcome is exactly [`received`].
    pub fn receive_next<R: GuestRam>(&self, ram: &mut R, avail: u32) -> (r: Result<
        Option<(IncomingRpc, u32)>,
        GspFault,
    >)
        requires
            self.state().abi.element.hdr_size_spec() + 12 <= usize::MAX,
        ensures
            final(ram).memory() == old(ram).memory(),
            final(ram).writable() == old(ram).writable(),
            !self.state().bound ==> r == Err::<Option<(IncomingRpc, u32)>, GspFault>(
                GspFault::QueueNotBound,
            ),
            self.state().bound ==> (r matches Err(GspFault::GuestRam(_)) || received(
                self.state().abi.element,
                self.state().abi.element_size_max,
                self.binding().geometry_spec(),
                old(ram).memory(),
                self.binding().command_cursor_spec().read_ptr as nat,
                self.state().cmd_seq,
                avail,
                r,
            )),
            self.state().bound && cmd_ring_covered(old(ram).memory(), self.binding().geometry_spec())
                ==> received(
                self.state().abi.element,
                self.state().abi.element_size_max,
                self.binding().geometry_spec(),
                old(ram).memory(),
                self.binding().command_cursor_spec().read_ptr as nat,
                self.state().cmd_seq,
                avail,
                r,
            ),
    {
        let b = match &self.queue {
            QueueState::Bound(b) => b,
            QueueState::Unbound => {
                return Err(GspFault::QueueNotBound);
            },
        };
        let geom = b.geometry();
        let count = geom.msg_count();
        let n = count.get();
        let es = geom.element_size();
        let rp = b.command_cursor().read_ptr;
        let layout = &self.abi.element;
        let esm = self.abi.element_size_max;
        let ghost mem = ram.memory();
        proof {
            if cmd_ring_covered(mem, *geom) {
                assert(geom.region_spec().covered(
                    mem,
                    cmd_slot_off(*geom, rp as nat),
                    geom.header_spec().msg_size as nat,
                ));
            }
        }
        let first = match read_cmd_element(ram, geom, count.slot(rp)) {
            Ok(v) => v,
            Err(e) => {
                return Err(e);
            },
        };
        proof {
            vstd::arithmetic::div_mod::lemma_small_mod(rp as nat, n as nat);
        }
        let len = match peek_len(layout, first.as_slice(), es, esm) {
            Ok(l) => l,
            Err(e) => {
                return Err(e);
            },
        };
        let k = match peek_elem_count(layout, first.as_slice()) {
            Ok(Some(d)) => {
                let max = max_elements(es, esm);
                if d > max {
                    return Err(GspFault::ElementCountOutOfRange { count: d, max });
                }
                if d != len.elements() {
                    return Err(GspFault::ElementCountMismatch { declared: d, derived: len.elements() });
                }
                d
            },
            Ok(None) => len.elements(),
            Err(e) => {
                return Err(e);
            },
        };
        if k > avail {
            return Ok(None);
        }
        let mut run = first;
        let mut i: u32 = 1;
        proof {
            assert(es > 0);
            crate::element::lemma_elements_cover(len.msg_len_spec(), es);
            assert(k == len.elements_spec());
            assert(k >= 1) by (nonlinear_arith)
                requires
                    k * es >= len.msg_len_spec(),
                    len.msg_len_spec() >= 32,
            ;
            assert(cmd_run(mem, *geom, rp as nat, 0) == Seq::<u8>::empty());
            assert(((rp + 1 - 1) as nat) % (n as nat) == rp);
            assert(cmd_run(mem, *geom, rp as nat, 1) =~= cmd_element(mem, *geom, rp as nat));
        }
        while i < k
            invariant
                geom.holds(),
                count@ == n,
                n == geom.header_spec().msg_count,
                rp < n,
                1 <= i <= k,
                k <= avail,
                ram.memory() == mem,
                mem == old(ram).memory(),
                ram.writable() == old(ram).writable(),
                self.state().bound,
                *geom == self.binding().geometry_spec(),
                run@ == cmd_run(mem, *geom, rp as nat, i as nat),
            decreases k - i,
        {
            let pos: u32 = ((rp as u64 + i as u64) % (n as u64)) as u32;
            proof {
                if cmd_ring_covered(mem, *geom) {
                    assert(geom.region_spec().covered(
                        mem,
                        cmd_slot_off(*geom, pos as nat),
                        geom.header_spec().msg_size as nat,
                    ));
                }
            }
            let mut next = match read_cmd_element(ram, geom, count.slot(pos)) {
                Ok(v) => v,
                Err(e) => {
                    return Err(e);
                },
            };
            proof {
                vstd::arithmetic::div_mod::lemma_small_mod(pos as nat, n as nat);
            }
            run.append(&mut next);
            i = i + 1;
        }
        let msg = match decode_message(layout, run.as_slice(), len, self.cmd_seq) {
            Ok(m) => m,
            Err(e) => {
                return Err(e);
            },
        };
        Ok(Some((msg, k)))
    }
}

/// The guest's command-queue write pointer, as guest memory holds it.
pub open spec fn cmd_write_ptr(mem: Map<int, u8>, geom: MsgqGeometry) -> u32 {
    le_u32(geom.region_spec().bytes(mem, geom.cmd_off_spec() + TX_HEADER_WRITE_PTR_OFFSET, 4), 0)
}

/// `b` with its command position moved on.
pub open spec fn cmd_moved(b0: QueueBinding, b1: QueueBinding, read_ptr: u32) -> bool {
    &&& b1.geometry_spec() == b0.geometry_spec()
    &&& b1.status_cursor_spec() == b0.status_cursor_spec()
    &&& b1.command_cursor_spec() == RxCursor { read_ptr }
    &&& b1.peer_read_at_bind_spec() == b0.peer_read_at_bind_spec()
}

/// Whether the guest has drained `GSP_INIT_DONE`: it has linked to the header we
/// published — its read pointer was zero at the bind, or has changed since, which only
/// the guest can do — and moved off zero.
pub open spec fn init_done_drained(peer_at_bind: u32, peer: u32) -> bool {
    (peer_at_bind == 0 || peer != peer_at_bind) && peer != 0
}

impl QueueBinding {
    fn set_command_position(&mut self, read_ptr: u32)
        requires
            read_ptr < old(self).geometry_spec().header_spec().msg_count,
        ensures
            cmd_moved(*old(self), *final(self), read_ptr),
    {
        proof {
            use_type_invariant(&*self);
        }
        self.cmd = RxCursor { read_ptr };
    }
}

impl GspFsm {
    /// How many command elements the producer has made available: the guest's write
    /// pointer, read live, against our read position — or the named refusal of a write
    /// pointer outside the ring.
    pub fn service_available<R: GuestRam>(&self, ram: &mut R) -> (r: Result<u32, GspFault>)
        ensures
            final(ram).memory() == old(ram).memory(),
            final(ram).writable() == old(ram).writable(),
            !self.state().bound ==> r == Err::<u32, GspFault>(GspFault::QueueNotBound),
            self.state().bound ==> (r matches Err(GspFault::GuestRam(_)) || r
                == crate::ring::spec_available_elements(
                cmd_write_ptr(old(ram).memory(), self.binding().geometry_spec()),
                self.binding().command_cursor_spec().read_ptr,
                self.binding().geometry_spec().header_spec().msg_count,
            )),
            self.state().bound && self.binding().geometry_spec().region_spec().covered(
                old(ram).memory(),
                self.binding().geometry_spec().cmd_off_spec() + TX_HEADER_WRITE_PTR_OFFSET,
                4,
            ) ==> r == crate::ring::spec_available_elements(
                cmd_write_ptr(old(ram).memory(), self.binding().geometry_spec()),
                self.binding().command_cursor_spec().read_ptr,
                self.binding().geometry_spec().header_spec().msg_count,
            ),
    {
        let b = match &self.queue {
            QueueState::Bound(b) => b,
            QueueState::Unbound => {
                return Err(GspFault::QueueNotBound);
            },
        };
        let geom = b.geometry();
        let count = geom.msg_count();
        let off = geom.cmd_write_ptr_off();
        proof {
            assert(geom.header_spec().rx_hdr_off >= 32);
        }
        let wp = match geom.region().read_u32(ram, off) {
            Ok(v) => v,
            Err(e) => {
                return Err(e);
            },
        };
        crate::ring::available_elements(wp, b.command_cursor().read_ptr, count)
    }

    /// Commit to the command just received: our position moves on by the `k` elements it
    /// occupied, wrapping, and the next command must carry the next sequence number.
    pub fn commit_command(&mut self, k: u32)
        requires
            old(self).state().bound,
        ensures
            final(self).state().bound,
            ({
                let b0 = old(self).binding();
                let n = b0.geometry_spec().header_spec().msg_count;
                let rp = (((b0.command_cursor_spec().read_ptr + k) as nat) % (n as nat)) as u32;
                &&& cmd_moved(b0, final(self).binding(), rp)
                &&& final(self).state() == (GspState {
                    cmd_seq: next_seq(old(self).state().cmd_seq),
                    cmd_read_ptr: rp,
                    ..old(self).state()
                })
            }),
    {
        let mut q = QueueState::Unbound;
        std::mem::swap(&mut q, &mut self.queue);
        let mut b = match q {
            QueueState::Bound(b) => b,
            QueueState::Unbound => {
                self.queue = QueueState::Unbound;
                return;
            },
        };
        let count = b.geometry().msg_count();
        let n = count.get();
        let rp = ((b.command_cursor().read_ptr as u64 + k as u64) % (n as u64)) as u32;
        b.set_command_position(rp);
        self.queue = QueueState::Bound(b);
        self.cmd_seq = self.cmd_seq.wrapping_add(1);
        self.cmd_read_ptr = rp;
    }

    /// End a service pass: publish our consumption of the command queue into the
    /// **status** queue's rx header — the swapped location — and enter `Running` once the
    /// guest is seen to have drained `GSP_INIT_DONE` after the firmware loaded.
    pub fn service_finish<R: GuestRam>(&mut self, ram: &mut R) -> (r: Result<
        Option<Transition>,
        GspFault,
    >)
        ensures
            !old(self).state().bound ==> r == Err::<Option<Transition>, GspFault>(
                GspFault::QueueNotBound,
            ) && final(self).state() == old(self).state() && final(ram).memory() == old(
                ram,
            ).memory(),
            old(self).state().bound ==> final(self).state().bound && final(self).binding()
                == old(self).binding() && (r matches Err(GspFault::GuestRam(_)) || ({
                let s0 = old(self).state();
                let b = old(self).binding();
                let geom = b.geometry_spec();
                let rp = b.command_cursor_spec().read_ptr;
                let mem1 = store(
                    old(ram).memory(),
                    geom.region_spec().addrs(geom.stat_off_spec() + geom.header_spec().rx_hdr_off, 4),
                    le_bytes_u32(rp),
                );
                let run = s0.phase == BootPhase::Booted && s0.init_done_posted && init_done_drained(
                    b.peer_read_at_bind_spec(),
                    peer_read_ptr(mem1, geom),
                );
                &&& final(ram).memory() == mem1
                &&& run ==> r == Ok::<Option<Transition>, GspFault>(Some(Transition::Running))
                    && final(self).state() == (GspState { phase: BootPhase::Running, ..s0 })
                &&& !run ==> r == Ok::<Option<Transition>, GspFault>(None) && final(self).state()
                    == s0
            })),
            r is Err ==> final(self).state() == old(self).state(),
            old(self).state().bound ==> final(ram).memory() == store(
                old(ram).memory(),
                ack_addrs(old(self).binding()),
                le_bytes_u32(old(self).binding().command_cursor_spec().read_ptr),
            ) || (r matches Err(GspFault::GuestRam(_)) && !all_in(
                final(ram).writable(),
                ack_addrs(old(self).binding()),
            )),
            old(self).state().bound && all_in(old(ram).writable(), ack_addrs(old(self).binding()))
                && peer_read_ptr_readable(old(ram).memory(), old(self).binding().geometry_spec())
                ==> !(r matches Err(GspFault::GuestRam(_))),
    {
        let b = match &self.queue {
            QueueState::Bound(b) => b,
            QueueState::Unbound => {
                return Err(GspFault::QueueNotBound);
            },
        };
        let geom = b.geometry();
        let rp = b.command_cursor().read_ptr;
        let ghost mem0 = ram.memory();
        match geom.region().write_u32(ram, geom.cmd_read_ptr_ack_off(), rp) {
            Ok(()) => {},
            Err(e) => {
                return Err(e);
            },
        }
        proof {
            let ack_off = geom.stat_off_spec() + geom.header_spec().rx_hdr_off;
            let addrs = geom.region_spec().addrs(ack_off, 4);
            assert forall|i: int| 0 <= i < addrs.len() implies mem0.dom().contains(
                #[trigger] addrs[i],
            ) by {
                assert(addrs[i] == geom.region_spec().gpa_of(ack_off + i));
            }
            crate::ram::lemma_store_dom(mem0, addrs, le_bytes_u32(rp));
        }
        let peer = match geom.region().read_u32(ram, geom.peer_stat_read_ptr_off()) {
            Ok(v) => v,
            Err(e) => {
                return Err(e);
            },
        };
        let at_bind = b.peer_read_at_bind;
        let linked = at_bind == 0 || peer != at_bind;
        let drained = linked && peer != 0;
        let booted = match self.phase {
            BootPhase::Booted => true,
            _ => false,
        };
        if booted && self.init_done_posted && drained {
            self.phase = BootPhase::Running;
            return Ok(Some(Transition::Running));
        }
        Ok(None)
    }

    /// Post an event the guest did not ask for. During the guest's boot window only the
    /// functions its allowlist admits may be posted; `allowed_in_bootup_window` is that
    /// classification of `rpc.function`, from the ABI layer.
    pub fn post_event<R: GuestRam>(
        &mut self,
        ram: &mut R,
        rpc: &OutgoingRpc,
        allowed_in_bootup_window: bool,
    ) -> (r: Result<(), GspFault>)
        ensures
            old(self).state().phase != BootPhase::Running && !allowed_in_bootup_window ==> r
                == Err::<(), GspFault>(GspFault::NotRunning) && final(self).state() == old(
                self,
            ).state() && final(ram).memory() == old(ram).memory(),
            old(self).state().phase == BootPhase::Running || allowed_in_bootup_window ==> ({
                let s0 = old(self).state();
                &&& !s0.bound ==> r == Err::<(), GspFault>(GspFault::QueueNotBound)
                    && final(self).state() == s0 && final(ram).memory() == old(ram).memory()
                &&& s0.bound ==> final(self).state().bound && match post_run_for(
                    s0,
                    old(self).binding().geometry_spec().header_spec().msg_size,
                    rpc@,
                ) {
                    Err(e) => r == Err::<(), GspFault>(e) && final(self).state() == s0
                        && final(self).binding() == old(self).binding() && final(ram).memory()
                        == old(ram).memory(),
                    Ok(run) => run_posted(
                        old(self).binding(),
                        final(self).binding(),
                        old(ram).memory(),
                        final(ram).memory(),
                        run,
                        r,
                    ) && (r is Ok ==> final(self).state() == (GspState {
                        stat_seq: next_seq(s0.stat_seq),
                        swgen0_pending: true,
                        ..s0
                    })) && (r is Err ==> final(self).state() == s0) && (peer_read_ptr_readable(
                        old(ram).memory(),
                        old(self).binding().geometry_spec(),
                    ) && status_ring_writable(
                        old(ram).writable(),
                        old(self).binding().geometry_spec(),
                    ) ==> !(r matches Err(GspFault::GuestRam(_)))),
                }
            }),
    {
        let running = match self.phase {
            BootPhase::Running => true,
            _ => false,
        };
        if !running && !allowed_in_bootup_window {
            return Err(GspFault::NotRunning);
        }
        self.post(ram, rpc)
    }

    /// The guest's unload command was answered (`E9`): reply first, **then** suspend, so
    /// the next processor start is recognised as the teardown.
    pub fn unload_answered(&mut self) -> (t: Transition)
        ensures
            t == Transition::E9,
            old(self).state().bound ==> final(self).binding() == old(self).binding(),
            final(self).state() == (GspState { phase: BootPhase::Suspending, ..old(self).state() }),
    {
        self.phase = BootPhase::Suspending;
        Transition::E9
    }
}

/// The `RMARGS` region's physical address, scanning the LibOS region array from entry
/// `i` on: the first entry whose id is `RMARGS` names it, a zero or foreign entry is
/// skipped rather than read as a terminator, and the scan is bounded by the descriptor's
/// declared maximum.
pub open spec fn spec_find_rmargs(
    mem: Map<int, u8>,
    boot_args_gpa: u64,
    libos: LibosRegionLayout,
    i: nat,
) -> Result<u64, GspFault>
    decreases libos.max_entries - i,
{
    if i >= libos.max_entries {
        Err(GspFault::RmargsRegionAbsent { scanned: libos.max_entries })
    } else {
        let entry = ram_bytes(
            mem,
            boot_args_gpa + i * libos.entry_stride,
            libos.entry_stride as nat,
        );
        match spec_read_u64(entry, libos.id_offset) {
            Err(e) => Err(e),
            Ok(id) => match spec_read_u64(entry, libos.pa_offset) {
                Err(e) => Err(e),
                Ok(pa) => if id == libos.rmargs_id {
                    Ok(pa)
                } else {
                    spec_find_rmargs(mem, boot_args_gpa, libos, i + 1)
                },
            },
        }
    }
}

/// The LibOS layout can be scanned from `boot_args_gpa` without an address overflowing.
pub open spec fn libos_scannable(libos: LibosRegionLayout, boot_args_gpa: u64) -> bool {
    &&& libos.max_entries == 0 || boot_args_gpa + (libos.max_entries - 1) * libos.entry_stride
        <= u64::MAX
    &&& libos.id_offset + 8 <= usize::MAX
    &&& libos.pa_offset + 8 <= usize::MAX
}

/// Every LibOS entry the scan from entry `i` on reads is guest RAM: each entry up to the
/// one the scan stops at.
pub open spec fn rmargs_scan_readable(
    mem: Map<int, u8>,
    boot_args_gpa: u64,
    libos: LibosRegionLayout,
    i: nat,
) -> bool
    decreases libos.max_entries - i,
{
    if i >= libos.max_entries {
        true
    } else {
        let at = boot_args_gpa + i * libos.entry_stride;
        let entry = ram_bytes(mem, at, libos.entry_stride as nat);
        &&& ram_covers(mem, at, libos.entry_stride as nat)
        &&& match spec_read_u64(entry, libos.id_offset) {
            Err(_) => true,
            Ok(id) => match spec_read_u64(entry, libos.pa_offset) {
                Err(_) => true,
                Ok(_) => id == libos.rmargs_id || rmargs_scan_readable(
                    mem,
                    boot_args_gpa,
                    libos,
                    i + 1,
                ),
            },
        }
    }
}

/// Find the `RMARGS` region in the LibOS region array at `boot_args_gpa`.
///
/// A refused RAM access is reported as such, and only where an entry the scan reads is
/// not guest RAM; every other outcome is exactly [`spec_find_rmargs`].
pub fn find_rmargs<R: GuestRam>(ram: &mut R, boot_args_gpa: u64, libos: &LibosRegionLayout) -> (r:
    Result<u64, GspFault>)
    requires
        libos_scannable(*libos, boot_args_gpa),
    ensures
        final(ram).memory() == old(ram).memory(),
        final(ram).writable() == old(ram).writable(),
        r matches Err(GspFault::GuestRam(_)) || r == spec_find_rmargs(
            old(ram).memory(),
            boot_args_gpa,
            *libos,
            0,
        ),
        rmargs_scan_readable(old(ram).memory(), boot_args_gpa, *libos, 0) ==> r
            == spec_find_rmargs(old(ram).memory(), boot_args_gpa, *libos, 0),
{
    let ghost mem = ram.memory();
    let stride = libos.entry_stride;
    let mut i: usize = 0;
    while i < libos.max_entries
        invariant
            ram.memory() == mem,
            mem == old(ram).memory(),
            ram.writable() == old(ram).writable(),
            libos_scannable(*libos, boot_args_gpa),
            stride == libos.entry_stride,
            i <= libos.max_entries,
            spec_find_rmargs(mem, boot_args_gpa, *libos, 0) == spec_find_rmargs(
                mem,
                boot_args_gpa,
                *libos,
                i as nat,
            ),
            rmargs_scan_readable(mem, boot_args_gpa, *libos, 0) ==> rmargs_scan_readable(
                mem,
                boot_args_gpa,
                *libos,
                i as nat,
            ),
        decreases libos.max_entries - i,
    {
        proof {
            assert(i * stride <= (libos.max_entries - 1) * stride) by (nonlinear_arith)
                requires
                    i <= libos.max_entries - 1,
            ;
        }
        let gpa = boot_args_gpa + (i as u64) * (stride as u64);
        let mut entry: Vec<u8> = vec![0u8; stride];
        match ram.read(gpa, entry.as_mut_slice()) {
            Ok(()) => {},
            Err(e) => {
                return Err(GspFault::GuestRam(e));
            },
        }
        let id = match read_u64(entry.as_slice(), libos.id_offset) {
            Ok(v) => v,
            Err(e) => {
                return Err(e);
            },
        };
        let pa = match read_u64(entry.as_slice(), libos.pa_offset) {
            Ok(v) => v,
            Err(e) => {
                return Err(e);
            },
        };
        if id == libos.rmargs_id {
            return Ok(pa);
        }
        i = i + 1;
    }
    Err(GspFault::RmargsRegionAbsent { scanned: libos.max_entries })
}

/// The fields of `MESSAGE_QUEUE_INIT_ARGUMENTS` this crate reads.
#[derive(Debug, Clone, Copy, PartialEq, Eq)]
pub struct InitArgs {
    /// `sharedMemPhysAddr` — entry 0 of the region's own page table.
    pub shared_mem_pa: u64,
    /// `pageTableEntryCount`.
    pub pte_count: u32,
    /// `cmdQueueOffset`.
    pub cmd_off: u64,
    /// `statQueueOffset`.
    pub stat_off: u64,
    /// `queueElementHdrSize`, on versions that declare it.
    pub element_hdr_size: Option<u64>,
}

/// The init-args fields read out of `args` under `il`, in reading order, or the first
/// truncation.
pub open spec fn spec_init_args(args: Seq<u8>, il: InitArgsLayout) -> Result<InitArgs, GspFault> {
    match spec_read_u64(args, il.shared_mem_pa_off) {
        Err(e) => Err(e),
        Ok(shared_mem_pa) => match spec_read_u32(args, il.pte_count_off) {
            Err(e) => Err(e),
            Ok(pte_count) => match spec_read_u64(args, il.cmd_queue_off_off) {
                Err(e) => Err(e),
                Ok(cmd_off) => match spec_read_u64(args, il.stat_queue_off_off) {
                    Err(e) => Err(e),
                    Ok(stat_off) => match il.element_hdr_size_off {
                        None => Ok(
                            InitArgs {
                                shared_mem_pa,
                                pte_count,
                                cmd_off,
                                stat_off,
                                element_hdr_size: None,
                            },
                        ),
                        Some(o) => match spec_read_u64(args, o) {
                            Err(e) => Err(e),
                            Ok(h) => Ok(
                                InitArgs {
                                    shared_mem_pa,
                                    pte_count,
                                    cmd_off,
                                    stat_off,
                                    element_hdr_size: Some(h),
                                },
                            ),
                        },
                    },
                },
            },
        },
    }
}

/// Every init-args offset can be read without overflowing an index.
pub open spec fn init_args_readable(il: InitArgsLayout) -> bool {
    &&& il.shared_mem_pa_off + 8 <= usize::MAX
    &&& il.pte_count_off + 4 <= usize::MAX
    &&& il.cmd_queue_off_off + 8 <= usize::MAX
    &&& il.stat_queue_off_off + 8 <= usize::MAX
    &&& il.element_hdr_size_off matches Some(o) ==> o + 8 <= usize::MAX
}

/// Decode the init-args fields out of the bytes read at the `RMARGS` region.
pub fn decode_init_args(args: &[u8], il: &InitArgsLayout) -> (r: Result<InitArgs, GspFault>)
    requires
        init_args_readable(*il),
    ensures
        r == spec_init_args(args@, *il),
{
    let shared_mem_pa = match read_u64(args, il.shared_mem_pa_off) {
        Ok(v) => v,
        Err(e) => {
            return Err(e);
        },
    };
    let pte_count = match read_u32(args, il.pte_count_off) {
        Ok(v) => v,
        Err(e) => {
            return Err(e);
        },
    };
    let cmd_off = match read_u64(args, il.cmd_queue_off_off) {
        Ok(v) => v,
        Err(e) => {
            return Err(e);
        },
    };
    let stat_off = match read_u64(args, il.stat_queue_off_off) {
        Ok(v) => v,
        Err(e) => {
            return Err(e);
        },
    };
    let element_hdr_size = match il.element_hdr_size_off {
        None => None,
        Some(o) => match read_u64(args, o) {
            Ok(v) => Some(v),
            Err(e) => {
                return Err(e);
            },
        },
    };
    Ok(InitArgs { shared_mem_pa, pte_count, cmd_off, stat_off, element_hdr_size })
}

/// The `GSP_INIT_DONE` event: no result, no body.
pub open spec fn init_done_message(abi: GspAbi) -> RpcMessage {
    RpcMessage {
        function: abi.init_done_function,
        sequence: 0,
        rpc_result: 0,
        rpc_result_private: 0,
        payload: Seq::empty(),
    }
}

/// A binding as a bind leaves it: the status cursor fresh, the command position carried
/// (reduced into the ring), and the peer's read pointer as sampled.
pub closed spec fn fresh_binding(g: MsgqGeometry, cmd_read_ptr: u32, peer: u32) -> QueueBinding {
    QueueBinding {
        geom: g,
        stat: TxCursor { write_ptr: 0, free_cache: (g.header_spec().msg_count - 1) as u32 },
        cmd: RxCursor {
            read_ptr: ((cmd_read_ptr as nat) % (g.header_spec().msg_count as nat)) as u32,
        },
        peer_read_at_bind: peer,
    }
}

/// Every byte of region range `[off, off + len)` of the region with pages `pages` is
/// guest RAM in `mem`.
pub open spec fn pages_covered(mem: Map<int, u8>, pages: Seq<u64>, ps: nat, off: int, len: nat) -> bool {
    forall|i: int| 0 <= i < len ==> mem.dom().contains(#[trigger] crate::ram::page_gpa(pages, ps, off + i))
}

/// Everything a publish touches is usable guest RAM: the LibOS entries the scan reads and
/// the init args are readable, the region's page table is readable where the walk reads
/// it, the command-queue header and the peer's read pointer are readable, and the status
/// header, every status-ring slot and the status write pointer are writable — each where
/// the guest's declarations, as `mem` holds them, place it.
#[verifier::opaque]
pub open spec fn publish_ram_usable(
    mem: Map<int, u8>,
    w: Set<int>,
    libos: LibosRegionLayout,
    boot_args_gpa: u64,
    abi: GspAbi,
) -> bool {
    let il = abi.init_args;
    &&& rmargs_scan_readable(mem, boot_args_gpa, libos, 0)
    &&& spec_find_rmargs(mem, boot_args_gpa, libos, 0) matches Ok(pa) ==> {
        &&& ram_covers(mem, pa as int, il.min_size as nat)
        &&& spec_init_args(ram_bytes(mem, pa as int, il.min_size as nat), il) matches Ok(a)
            ==> region_usable(mem, w, a, abi.msgq.region_page_size as u64)
    }
}

/// The region the init args `a` declare is usable guest RAM for a publish, with pages of
/// `ps` bytes: its page table is readable where the walk reads it, the command-queue
/// header and the peer's read pointer are readable, and the status header, every
/// status-ring slot and the status write pointer are writable.
pub open spec fn region_usable(mem: Map<int, u8>, w: Set<int>, a: InitArgs, ps: u64) -> bool {
    let pp = crate::ram::entries_per_page(ps);
    let pages = crate::ram::table_entries(mem, a.shared_mem_pa, pp, a.pte_count as nat);
    let psn = ps as nat;
    let h = crate::ring::spec_tx_header(
        Seq::new(32, |i: int| mem[crate::ram::page_gpa(pages, psn, a.cmd_off + i)]),
    );
    &&& crate::ram::table_readable(mem, a.shared_mem_pa, pp, a.pte_count as nat)
    &&& pages_covered(mem, pages, psn, a.cmd_off as int, 32)
    &&& pages_covered(mem, pages, psn, a.cmd_off + h.rx_hdr_off, 4)
    &&& all_in(w, crate::ram::page_addrs(pages, psn, a.stat_off as int, 32))
    &&& all_in(w, crate::ram::page_addrs(pages, psn, a.stat_off + TX_HEADER_WRITE_PTR_OFFSET, 4))
    &&& forall|s: nat|
        s < h.msg_count ==> #[trigger] all_in(
            w,
            crate::ram::page_addrs(pages, psn, a.stat_off + h.entry_off + s * h.msg_size, h.msg_size as nat),
        )
}

/// The command-queue header of a region loaded from usable guest RAM is readable, and is
/// what the guest's declarations say it is.
proof fn lemma_publish_header_readable(mem: Map<int, u8>, w: Set<int>, a: InitArgs, ps: u64, region: RegionMap)
    requires
        region_usable(mem, w, a, ps),
        region.page_size_spec() == ps,
        region.pages_spec() == crate::ram::table_entries(
            mem,
            a.shared_mem_pa,
            crate::ram::entries_per_page(ps),
            a.pte_count as nat,
        ),
    ensures
        region.covered(mem, a.cmd_off as int, 32),
        region.bytes(mem, a.cmd_off as int, 32) == Seq::new(
            32,
            |i: int| mem[crate::ram::page_gpa(region.pages_spec(), ps as nat, a.cmd_off + i)],
        ),
{
    let pages = region.pages_spec();
    assert forall|i: int| 0 <= i < 32 implies #[trigger] mem.dom().contains(region.gpa_of(a.cmd_off + i)) by {
        assert(region.gpa_of(a.cmd_off + i) == crate::ram::page_gpa(pages, ps as nat, a.cmd_off + i));
    }
    assert(region.bytes(mem, a.cmd_off as int, 32) =~= Seq::new(
        32,
        |i: int| mem[crate::ram::page_gpa(pages, ps as nat, a.cmd_off + i)],
    ));
}

/// The queues bound over a region loaded from usable guest RAM are usable: the peer's read
/// pointer is readable, and the status header, every status-ring slot and the status
/// write pointer are writable.
proof fn lemma_publish_queue_usable(mem: Map<int, u8>, w: Set<int>, a: InitArgs, ps: u64, g: MsgqGeometry)
    requires
        region_usable(mem, w, a, ps),
        g.region_spec().page_size_spec() == ps,
        g.region_spec().pages_spec() == crate::ram::table_entries(
            mem,
            a.shared_mem_pa,
            crate::ram::entries_per_page(ps),
            a.pte_count as nat,
        ),
        g.cmd_off_spec() == a.cmd_off,
        g.stat_off_spec() == a.stat_off,
        g.header_spec() == (TxHeader {
            write_ptr: 0,
            ..crate::ring::spec_tx_header(
                Seq::new(
                    32,
                    |i: int| mem[crate::ram::page_gpa(g.region_spec().pages_spec(), ps as nat, a.cmd_off + i)],
                ),
            )
        }),
    ensures
        peer_read_ptr_readable(mem, g),
        status_ring_writable(w, g),
        all_in(w, g.region_spec().addrs(a.stat_off as int, 32)),
{
    let pages = g.region_spec().pages_spec();
    let psn = ps as nat;
    let h = g.header_spec();
    assert forall|i: int| 0 <= i < 4 implies #[trigger] mem.dom().contains(
        g.region_spec().gpa_of(g.cmd_off_spec() + h.rx_hdr_off + i),
    ) by {
        assert(g.region_spec().gpa_of(g.cmd_off_spec() + h.rx_hdr_off + i) == crate::ram::page_gpa(
            pages,
            psn,
            a.cmd_off + h.rx_hdr_off + i,
        ));
    }
    assert forall|s: nat| s < h.msg_count implies #[trigger] all_in(
        w,
        g.region_spec().addrs(stat_slot_off(g, s), h.msg_size as nat),
    ) by {
        assert(g.region_spec().addrs(stat_slot_off(g, s), h.msg_size as nat) =~= crate::ram::page_addrs(
            pages,
            psn,
            a.stat_off + h.entry_off + s * h.msg_size,
            h.msg_size as nat,
        ));
    }
    assert(g.region_spec().addrs(g.stat_off_spec() + TX_HEADER_WRITE_PTR_OFFSET, 4) =~= crate::ram::page_addrs(
        pages,
        psn,
        a.stat_off + TX_HEADER_WRITE_PTR_OFFSET,
        4,
    ));
    assert(g.region_spec().addrs(a.stat_off as int, 32) =~= crate::ram::page_addrs(pages, psn, a.stat_off as int, 32));
}

/// Readability of the peer's read pointer depends on which addresses are guest RAM.
proof fn lemma_peer_readable_by_dom(m0: Map<int, u8>, m1: Map<int, u8>, g: MsgqGeometry)
    requires
        m0.dom() == m1.dom(),
        peer_read_ptr_readable(m0, g),
    ensures
        peer_read_ptr_readable(m1, g),
{
    assert forall|i: int| 0 <= i < 4 implies #[trigger] m1.dom().contains(
        g.region_spec().gpa_of(g.cmd_off_spec() + g.header_spec().rx_hdr_off + i),
    ) by {
        assert(m0.dom().contains(g.region_spec().gpa_of(g.cmd_off_spec() + g.header_spec().rx_hdr_off + i)));
    }
}

/// The scan's refusals are never guest-RAM ones.
proof fn lemma_scan_refusal_not_ram(mem: Map<int, u8>, base: u64, libos: LibosRegionLayout, i: nat)
    ensures
        spec_find_rmargs(mem, base, libos, i) matches Err(e) ==> !(e is GuestRam),
    decreases libos.max_entries - i,
{
    if i < libos.max_entries {
        lemma_scan_refusal_not_ram(mem, base, libos, i + 1);
    }
}

/// Decoding the init args refuses only by truncation.
proof fn lemma_init_args_refusal_not_ram(args: Seq<u8>, il: InitArgsLayout)
    ensures
        spec_init_args(args, il) matches Err(e) ==> !(e is GuestRam),
{
}

/// Encoding a message never refuses for guest RAM.
proof fn lemma_post_refusal_not_ram()
    ensures
        forall|s: GspState, es: u32, rpc: RpcMessage|
            #[trigger] post_run_for(s, es, rpc) matches Err(e) ==> !(e is GuestRam),
{
}

/// What a fresh binding holds.
pub proof fn lemma_fresh_binding(g: MsgqGeometry, cmd_read_ptr: u32, peer: u32)
    ensures
        fresh_binding(g, cmd_read_ptr, peer).geometry_spec() == g,
        fresh_binding(g, cmd_read_ptr, peer).status_cursor_spec() == (TxCursor {
            write_ptr: 0,
            free_cache: (g.header_spec().msg_count - 1) as u32,
        }),
        fresh_binding(g, cmd_read_ptr, peer).command_cursor_spec() == (RxCursor {
            read_ptr: ((cmd_read_ptr as nat) % (g.header_spec().msg_count as nat)) as u32,
        }),
        fresh_binding(g, cmd_read_ptr, peer).peer_read_at_bind_spec() == peer,
{
}

impl GspFsm {
    /// **E6 — publish.** Find the `RMARGS` region, read the queue geometry the guest
    /// declared, load the shared region through its own page table, bind and validate the
    /// queues, write the status tx header the guest's `msgqRxLink` spins on, and post
    /// `GSP_INIT_DONE`.
    ///
    /// Idempotent by construction: it recomputes everything from the guest's *current*
    /// declarations. Positions restart on every bind; the sequence numbers and the command
    /// position are kept only when the region is the same instance as the last bind's
    /// (`sharedMemPhysAddr` unchanged) — a new module load allocates a new region and
    /// starts again at zero, as the guest did. The boot-args pair is consumed.
    ///
    /// A guest-RAM refusal comes only where something the publish touches is not usable
    /// guest RAM ([`publish_ram_usable`]).
    #[verifier::rlimit(40)]
    pub fn publish<R: GuestRam>(
        &mut self,
        ram: &mut R,
        libos: &LibosRegionLayout,
        boot_args_gpa: u64,
    ) -> (r: Result<(), GspFault>)
        requires
            libos_scannable(*libos, boot_args_gpa),
            init_args_readable(old(self).state().abi.init_args),
            old(self).state().max_entries * 8 <= usize::MAX,
        ensures
            final(self).state().abi == old(self).state().abi,
            final(self).state().phase == old(self).state().phase,
            final(self).state().boot_args_seen == (false, false),
            final(ram).writable() == old(ram).writable(),
            publish_ram_usable(
                old(ram).memory(),
                old(ram).writable(),
                *libos,
                boot_args_gpa,
                old(self).state().abi,
            ) ==> !(r matches Err(GspFault::GuestRam(_))),
            ({
                let mem0 = old(ram).memory();
                let il = old(self).state().abi.init_args;
                let scan = spec_find_rmargs(mem0, boot_args_gpa, *libos, 0);
                let args = spec_init_args(
                    ram_bytes(mem0, scan->Ok_0 as int, il.min_size as nat),
                    il,
                );
                let scan_readable = rmargs_scan_readable(mem0, boot_args_gpa, *libos, 0);
                let args_readable = scan_readable && ram_covers(
                    mem0,
                    scan->Ok_0 as int,
                    il.min_size as nat,
                );
                let refused = r matches Err(GspFault::GuestRam(_));
                &&& scan matches Err(e) ==> (refused && !scan_readable) || r == Err::<(), GspFault>(e)
                &&& scan is Ok ==> (args matches Err(e) ==> (refused && !args_readable) || r == Err::<
                    (),
                    GspFault,
                >(e))
                &&& scan is Ok ==> (args matches Ok(a) ==> (a.element_hdr_size matches Some(h) ==> (h
                    != old(self).state().abi.element.hdr_size_spec() ==> (refused && !args_readable) || r == Err::<
                    (),
                    GspFault,
                >(
                    GspFault::DeclaredHeaderSizeMismatch {
                        declared: h,
                        expected: old(self).state().abi.element.hdr_size_spec() as u64,
                    },
                ))))
            }),
            r is Ok ==> ({
                let s0 = old(self).state();
                let mem0 = old(ram).memory();
                let il = s0.abi.init_args;
                let pa = spec_find_rmargs(mem0, boot_args_gpa, *libos, 0)->Ok_0;
                let a = spec_init_args(ram_bytes(mem0, pa as int, il.min_size as nat), il)->Ok_0;
                let b = final(self).binding();
                let g = b.geometry_spec();
                let ps = s0.abi.msgq.region_page_size as u64;
                let same = s0.region_identity == Some(a.shared_mem_pa);
                let rp = if same {
                    s0.cmd_read_ptr
                } else {
                    0
                };
                let seq = if same {
                    s0.stat_seq
                } else {
                    0
                };
                let mem1 = store(
                    mem0,
                    g.region_spec().addrs(a.stat_off as int, 32),
                    spec_tx_header_bytes(g.header_spec()),
                );
                let before_post = GspState {
                    bound: true,
                    stat_seq: seq,
                    cmd_seq: if same {
                        s0.cmd_seq
                    } else {
                        0
                    },
                    cmd_read_ptr: rp,
                    region_identity: Some(a.shared_mem_pa),
                    boot_args_seen: (false, false),
                    init_done_posted: false,
                    ..s0
                };
                &&& spec_find_rmargs(mem0, boot_args_gpa, *libos, 0) is Ok
                &&& spec_init_args(ram_bytes(mem0, pa as int, il.min_size as nat), il) is Ok
                &&& a.element_hdr_size matches Some(h) ==> h == s0.abi.element.hdr_size_spec()
                &&& g.cmd_off_spec() == a.cmd_off
                &&& g.stat_off_spec() == a.stat_off
                &&& g.region_spec().page_size_spec() == ps
                &&& g.region_spec().pages_spec() == crate::ram::table_entries(
                    mem0,
                    a.shared_mem_pa,
                    crate::ram::entries_per_page(ps),
                    a.pte_count as nat,
                )
                &&& g.header_spec() == (TxHeader {
                    write_ptr: 0,
                    ..crate::ring::spec_tx_header(g.region_spec().bytes(mem0, a.cmd_off as int, 32))
                })
                &&& post_run_for(before_post, g.header_spec().msg_size, init_done_message(s0.abi))
                    is Ok
                &&& run_posted(
                    fresh_binding(g, rp, peer_read_ptr(mem1, g)),
                    b,
                    mem1,
                    final(ram).memory(),
                    post_run_for(
                        before_post,
                        g.header_spec().msg_size,
                        init_done_message(s0.abi),
                    )->Ok_0,
                    Ok(()),
                )
                &&& final(self).state() == (GspState {
                    swgen0_pending: true,
                    init_done_posted: true,
                    stat_seq: next_seq(seq),
                    ..before_post
                })
            }),
    {
        let ghost mem0 = ram.memory();
        let ghost w0 = ram.writable();
        let ghost usable = publish_ram_usable(mem0, w0, *libos, boot_args_gpa, self.abi);
        proof {
            lemma_scan_refusal_not_ram(mem0, boot_args_gpa, *libos, 0);
            if usable {
                assert(rmargs_scan_readable(mem0, boot_args_gpa, *libos, 0)) by {
                    reveal(publish_ram_usable);
                }
            }
        }
        self.boot_args_seen = (false, false);
        let args_pa = match find_rmargs(ram, boot_args_gpa, libos) {
            Ok(pa) => pa,
            Err(e) => {
                return Err(e);
            },
        };
        let il = self.abi.init_args;
        proof {
            if usable {
                assert(ram_covers(mem0, args_pa as int, il.min_size as nat)) by {
                    reveal(publish_ram_usable);
                }
            }
        }
        let mut args: Vec<u8> = vec![0u8; il.min_size];
        match ram.read(args_pa, args.as_mut_slice()) {
            Ok(()) => {},
            Err(e) => {
                return Err(GspFault::GuestRam(e));
            },
        }
        proof {
            lemma_init_args_refusal_not_ram(args@, il);
            lemma_post_refusal_not_ram();
        }
        let a = match decode_init_args(args.as_slice(), &il) {
            Ok(a) => a,
            Err(e) => {
                return Err(e);
            },
        };
        proof {
            if usable {
                assert(region_usable(mem0, w0, a, self.abi.msgq.region_page_size as u64)) by {
                    reveal(publish_ram_usable);
                }
            }
        }
        match a.element_hdr_size {
            Some(declared) => {
                let want = self.abi.element.hdr_size() as u64;
                if declared != want {
                    return Err(GspFault::DeclaredHeaderSizeMismatch { declared, expected: want });
                }
            },
            None => {},
        }
        let ps = self.abi.msgq.region_page_size as u64;
        proof {
            assert(a.pte_count * ps <= u64::MAX) by (nonlinear_arith)
                requires
                    a.pte_count <= u32::MAX,
                    ps <= u32::MAX,
            ;
            assert(a.pte_count <= self.max_entries ==> a.pte_count * 8 <= usize::MAX) by (
            nonlinear_arith)
                requires
                    self.max_entries * 8 <= usize::MAX,
            ;
        }
        let region = match RegionMap::load(ram, a.shared_mem_pa, a.pte_count, ps, self.max_entries) {
            Ok(m) => m,
            Err(e) => {
                return Err(e);
            },
        };
        proof {
            if usable {
                lemma_publish_header_readable(mem0, w0, a, ps, region);
            }
        }
        let geom = match MsgqGeometry::bind(ram, region, a.cmd_off, a.stat_off, &self.abi.msgq) {
            Ok(g) => g,
            Err(e) => {
                return Err(e);
            },
        };
        let hdr = geom.published_header().encode();
        proof {
            if usable {
                lemma_publish_queue_usable(mem0, w0, a, ps, geom);
            }
        }
        match geom.region().write(ram, a.stat_off, &hdr) {
            Ok(()) => {},
            Err(e) => {
                return Err(e);
            },
        }
        proof {
            if usable {
                lemma_peer_readable_by_dom(mem0, ram.memory(), geom);
            }
        }
        let same = match self.region_identity {
            Some(prev) => prev == a.shared_mem_pa,
            None => false,
        };
        if !same {
            self.stat_seq = 0;
            self.cmd_seq = 0;
            self.cmd_read_ptr = 0;
        }
        self.region_identity = Some(a.shared_mem_pa);
        let count = geom.msg_count();
        let peer = match geom.region().read_u32(ram, geom.peer_stat_read_ptr_off()) {
            Ok(v) => v,
            Err(e) => {
                return Err(e);
            },
        };
        let read_ptr = count.slot(self.cmd_read_ptr).index();
        self.queue = QueueState::Bound(
            QueueBinding {
                geom,
                stat: TxCursor::fresh(count),
                cmd: RxCursor { read_ptr },
                peer_read_at_bind: peer,
            },
        );
        self.init_done_posted = false;
        let init_done = OutgoingRpc {
            function: self.abi.init_done_function,
            sequence: 0,
            rpc_result: 0,
            rpc_result_private: 0,
            payload: Vec::new(),
        };
        assert(init_done@.payload =~= Seq::<u8>::empty());
        match self.post(ram, &init_done) {
            Ok(()) => {},
            Err(e) => {
                return Err(e);
            },
        }
        self.init_done_posted = true;
        Ok(())
    }
}


/// What one service pass did.
#[derive(Debug, Clone, Default, PartialEq, Eq)]
pub struct ServiceReport {
    /// Transitions that fired, in order.
    pub transitions: Vec<Transition>,
    /// Commands decoded off the command queue.
    pub commands: Vec<IncomingRpc>,
    /// True if the status-queue interrupt should be announced to the guest.
    pub raise_status_irq: bool,
}

/// How a command is answered — the seam the forwarding plane implements.
pub trait CommandPolicy {
    /// Answer one command, or `None` to let the machine post its own acknowledgement.
    fn respond(&mut self, cmd: &IncomingRpc) -> Option<Reply>;
}

/// The baseline policy: answers nothing, so every command is acknowledged with its own
/// request echoed back.
#[derive(Debug, Default, Clone, Copy)]
pub struct EchoOk;

impl CommandPolicy for EchoOk {
    fn respond(&mut self, cmd: &IncomingRpc) -> (r: Option<Reply>)
        ensures
            r is None,
    {
        None
    }
}


/// Several policies, tried in order: the first that answers wins, and a chain that
/// answers nothing behaves as [`EchoOk`].
pub struct PolicyChain {
    links: Vec<Box<dyn CommandPolicy>>,
}

impl PolicyChain {
    /// How many links the chain has.
    pub closed spec fn link_count(&self) -> nat {
        self.links@.len()
    }

    /// Build a chain. Earlier links take precedence.
    pub fn new(links: Vec<Box<dyn CommandPolicy>>) -> (r: PolicyChain)
        ensures
            r.link_count() == links@.len(),
    {
        PolicyChain { links }
    }

    /// How many links the chain has.
    pub fn len(&self) -> (r: usize)
        ensures
            r == self.link_count(),
    {
        self.links.len()
    }

    /// Whether the chain is empty — in which case it behaves as [`EchoOk`].
    pub fn is_empty(&self) -> (r: bool)
        ensures
            r == (self.link_count() == 0),
    {
        self.links.len() == 0
    }
}

impl CommandPolicy for PolicyChain {
    fn respond(&mut self, cmd: &IncomingRpc) -> (r: Option<Reply>)
        ensures
            final(self).link_count() == old(self).link_count(),
            old(self).link_count() == 0 ==> r is None,
    {
        let n = self.links.len();
        let mut i: usize = 0;
        while i < n
            invariant
                i <= n,
                n == self.links@.len(),
                n == old(self).links@.len(),
            decreases n - i,
        {
            match self.links[i].respond(cmd) {
                Some(reply) => {
                    return Some(reply);
                },
                None => {},
            }
            i = i + 1;
        }
        None
    }
}

/// What the ABI layer knows about a command by its envelope and function id.
pub trait FunctionTable {
    /// Validate a received command's envelope.
    fn check_envelope(&self, cmd: &IncomingRpc) -> Result<(), GspFault>;

    /// Whether a command with this function id is sent asynchronously and never awaited:
    /// it takes no reply, and echoing one would desynchronise the guest.
    fn no_reply(&self, function: u32) -> bool;

    /// Whether this function id is the guest's unload command.
    fn is_unload(&self, function: u32) -> bool;
}

/// The function id a command's envelope carries.
pub open spec fn envelope_function(cmd: IncomingRpc) -> u32 {
    le_u32(cmd.envelope@, 12)
}

/// The transaction id a command's envelope carries.
pub open spec fn envelope_sequence(cmd: IncomingRpc) -> u32 {
    le_u32(cmd.envelope@, 24)
}

/// The reply to `cmd` with result `rpc_result` and body `body`: its function and
/// transaction id, the result in both result words, and the body clamped to the
/// request's own body length.
pub open spec fn spec_reply(cmd: IncomingRpc, rpc_result: u32, body: Seq<u8>) -> RpcMessage {
    RpcMessage {
        function: envelope_function(cmd),
        sequence: envelope_sequence(cmd),
        rpc_result,
        rpc_result_private: rpc_result,
        payload: body.take(
            if body.len() <= cmd.payload@.len() {
                body.len() as int
            } else {
                cmd.payload@.len() as int
            },
        ),
    }
}

/// Build the reply to `cmd` (see [`spec_reply`]).
pub fn reply_to(cmd: &IncomingRpc, rpc_result: u32, body: &Vec<u8>) -> (r: OutgoingRpc)
    requires
        cmd.envelope@.len() == RPC_ENVELOPE_SIZE,
    ensures
        r@ == spec_reply(*cmd, rpc_result, body@),
{
    let keep = if body.len() <= cmd.payload.len() {
        body.len()
    } else {
        cmd.payload.len()
    };
    let mut payload: Vec<u8> = Vec::new();
    let mut i: usize = 0;
    while i < keep
        invariant
            keep <= body@.len(),
            i <= keep,
            payload@ == body@.take(i as int),
        decreases keep - i,
    {
        payload.push(body[i]);
        i = i + 1;
        assert(payload@ =~= body@.take(i as int));
    }
    OutgoingRpc {
        function: get_u32(cmd.envelope.as_slice(), 12),
        sequence: get_u32(cmd.envelope.as_slice(), 24),
        rpc_result,
        rpc_result_private: rpc_result,
        payload,
    }
}

/// Where our consumption of the command queue is published: the **status** queue's rx
/// header, the swapped location.
pub open spec fn ack_addrs(b: QueueBinding) -> Seq<int> {
    let geom = b.geometry_spec();
    geom.region_spec().addrs(geom.stat_off_spec() + geom.header_spec().rx_hdr_off, 4)
}

/// `mem` was last written, at the acknowledgement, with `b`'s command position.
pub open spec fn ack_published(mem: Map<int, u8>, b: QueueBinding) -> bool {
    exists|m: Map<int, u8>|
        mem == store(m, ack_addrs(b), le_bytes_u32(b.command_cursor_spec().read_ptr))
}

impl GspFsm {
    /// Publish our consumption of the command queue: our command position, into the
    /// status queue's rx header.
    fn publish_command_ack<R: GuestRam>(&self, ram: &mut R) -> (r: Result<(), GspFault>)
        requires
            self.state().bound,
        ensures
            r is Ok ==> final(ram).memory() == store(
                old(ram).memory(),
                ack_addrs(self.binding()),
                le_bytes_u32(self.binding().command_cursor_spec().read_ptr),
            ),
            r matches Err(e) ==> e is GuestRam,
            final(ram).writable() == old(ram).writable(),
            r is Err ==> !all_in(old(ram).writable(), ack_addrs(self.binding())),
    {
        let b = match &self.queue {
            QueueState::Bound(b) => b,
            QueueState::Unbound => {
                return Err(GspFault::QueueNotBound);
            },
        };
        let geom = b.geometry();
        let rp = b.command_cursor().read_ptr;
        geom.region().write_u32(ram, geom.cmd_read_ptr_ack_off(), rp)
    }
}


/// A command's extent is at least one element, wherever elements have a size.
proof fn lemma_extent_positive(layout: ElementLayout, es: u32, esm: u32, first: Seq<u8>)
    requires
        es > 0,
    ensures
        spec_command_extent(layout, es, esm, first) matches Ok((msg_len, k)) ==> k >= 1,
{
    if let Ok((msg_len, k)) = spec_command_extent(layout, es, esm, first) {
        let hdr = layout.hdr_size_spec();
        assert(msg_len >= RPC_ENVELOPE_SIZE);
        let d = spec_bytes_to_elements(msg_len, es);
        if msg_len % es == 0 {
            assert(msg_len / es >= 1) by (nonlinear_arith)
                requires
                    msg_len % es == 0,
                    msg_len > 0,
                    es > 0,
            ;
        } else {
            assert(es >= 2);
            assert(msg_len / es + 1 <= u32::MAX) by (nonlinear_arith)
                requires
                    es >= 2,
                    msg_len <= u32::MAX,
            ;
        }
        assert(d >= 1);
    }
}

/// Whether the command a service step received, `m`, was answered as the table classes
/// it: a command that takes a reply had one posted — the status stream moved on by one —
/// and one that takes none posted nothing.
pub open spec fn answered_as_classed<T: FunctionTable>(
    table: T,
    m: IncomingRpc,
    s0: GspState,
    s1: GspState,
) -> bool {
    reply_step(table, m, s0.stat_seq, s1.stat_seq)
}

/// Answering `m` moved the status stream's sequence number from `st0` to `st1`: on by
/// one if the table says `m` takes a reply, not at all if it takes none.
pub open spec fn reply_step<T: FunctionTable>(table: T, m: IncomingRpc, st0: u32, st1: u32) -> bool {
    exists|silent: bool|
        #[trigger] call_ensures(T::no_reply, (&table, envelope_function(m)), silent) && if silent {
            st1 == st0
        } else {
            st1 == next_seq(st0)
        }
}

/// The commands `done` were each answered as the table classes them, in order, the status
/// stream's sequence number passing through `stats`.
pub open spec fn replies_posted<T: FunctionTable>(
    table: T,
    done: Seq<IncomingRpc>,
    stats: Seq<u32>,
) -> bool {
    &&& stats.len() == done.len() + 1
    &&& forall|i: int|
        0 <= i < done.len() ==> reply_step(table, #[trigger] done[i], stats[i], stats[i + 1])
}

impl GspFsm {
    /// Check a received command's envelope and answer it — the policy's reply, or the
    /// request echoed — unless the table says it takes no reply. Commits to nothing. A
    /// refusal changes no state; the result is whether the command was left silent.
    fn answer_command<R: GuestRam, P: CommandPolicy, T: FunctionTable>(
        &mut self,
        ram: &mut R,
        policy: &mut P,
        table: &T,
        msg: &IncomingRpc,
    ) -> (r: Result<bool, GspFault>)
        requires
            old(self).state().bound,
            msg.envelope@.len() == RPC_ENVELOPE_SIZE,
        ensures
            final(self).state().bound,
            final(self).binding().geometry_spec() == old(self).binding().geometry_spec(),
            final(self).binding().command_cursor_spec() == old(self).binding().command_cursor_spec(),
            r is Err ==> final(self).state() == old(self).state(),
            final(ram).writable() == old(ram).writable(),
            final(ram).memory().dom() == old(ram).memory().dom(),
            peer_read_ptr_readable(old(ram).memory(), old(self).binding().geometry_spec())
                && status_ring_writable(old(ram).writable(), old(self).binding().geometry_spec())
                ==> (r matches Err(e) ==> (e is GuestRam ==> table_refused(*table, e))),
            r matches Ok(silent) ==> call_ensures(T::no_reply, (table, envelope_function(*msg)), silent)
                && final(self).state() == if silent {
                old(self).state()
            } else {
                GspState { stat_seq: next_seq(old(self).state().stat_seq), swgen0_pending: true, ..old(self).state() }
            },
    {
        match table.check_envelope(msg) {
            Ok(()) => {},
            Err(e) => {
                return Err(e);
            },
        }
        let function = get_u32(msg.envelope.as_slice(), 12);
        let silent = table.no_reply(function);
        if !silent {
            let out = match policy.respond(msg) {
                Some(reply) => reply_to(msg, reply.rpc_result, &reply.body),
                None => reply_to(msg, 0, &msg.payload),
            };
            match self.post(ram, &out) {
                Ok(()) => {},
                Err(e) => {
                    return Err(e);
                },
            }
        }
        Ok(silent)
    }

    /// Serve the command at our position in the command ring, with `avail` elements
    /// available: receive it, check its envelope, answer it unless it takes no reply, and
    /// only then commit to it. A command that is refused — its envelope, its decoding, or
    /// the post of its reply, a full status queue among them — is **not** consumed: our
    /// position and the sequence number the next command must carry stay where they were,
    /// so the next pass reads it again. `None` while the producer has not finished writing
    /// the command.
    pub fn serve_next<R: GuestRam, P: CommandPolicy, T: FunctionTable>(
        &mut self,
        ram: &mut R,
        policy: &mut P,
        table: &T,
        avail: u32,
    ) -> (r: Result<Option<(IncomingRpc, u32, Option<Transition>)>, GspFault>)
        requires
            old(self).state().abi.element.hdr_size_spec() + 12 <= usize::MAX,
            old(self).state().bound,
        ensures
            final(self).state().bound,
            final(self).state().abi == old(self).state().abi,
            final(ram).writable() == old(ram).writable(),
            final(ram).memory().dom() == old(ram).memory().dom(),
            queue_ram_usable(old(ram).memory(), old(ram).writable(), old(self).binding().geometry_spec())
                ==> (r matches Err(e) ==> (e is GuestRam ==> table_refused(*table, e))),
            final(self).binding().geometry_spec() == old(self).binding().geometry_spec(),
            r is Err ==> final(self).state() == old(self).state(),
            r is Err ==> final(self).state().cmd_seq == old(self).state().cmd_seq
                && final(self).state().cmd_read_ptr == old(self).state().cmd_read_ptr
                && final(self).binding().command_cursor_spec() == old(
                self,
            ).binding().command_cursor_spec(),
            r matches Ok(None) ==> final(self).state() == old(self).state() && final(self).binding()
                == old(self).binding() && final(ram).memory() == old(ram).memory() && received(
                old(self).state().abi.element,
                old(self).state().abi.element_size_max,
                old(self).binding().geometry_spec(),
                old(ram).memory(),
                old(self).binding().command_cursor_spec().read_ptr as nat,
                old(self).state().cmd_seq,
                avail,
                Ok(None),
            ),
            r matches Ok(Some((m, k, t))) ==> {
                let n = old(self).binding().geometry_spec().header_spec().msg_count;
                let rp0 = old(self).binding().command_cursor_spec().read_ptr;
                let rp = (((rp0 + k) as nat) % (n as nat)) as u32;
                &&& 1 <= k <= avail
                &&& received(
                    old(self).state().abi.element,
                    old(self).state().abi.element_size_max,
                    old(self).binding().geometry_spec(),
                    old(ram).memory(),
                    rp0 as nat,
                    old(self).state().cmd_seq,
                    avail,
                    Ok(Some((m, k))),
                )
                &&& answered_as_classed(*table, m, old(self).state(), final(self).state())
                &&& final(self).state().cmd_seq == next_seq(old(self).state().cmd_seq)
                &&& final(self).state().cmd_read_ptr == rp
                &&& final(self).binding().command_cursor_spec().read_ptr == rp
                &&& (t matches Some(tr) ==> tr == Transition::E9 && final(self).state().phase
                    == BootPhase::Suspending)
            },
    {
        let ghost s0 = self.state();
        let ghost b0 = self.binding();
        let ghost mem0 = ram.memory();
        match &self.queue {
            QueueState::Bound(b) => {
                let _ = b.geometry().msg_count();
            },
            QueueState::Unbound => {},
        }
        proof {
            lemma_extent_positive(
                s0.abi.element,
                b0.geometry_spec().header_spec().msg_size,
                s0.abi.element_size_max,
                cmd_element(mem0, b0.geometry_spec(), b0.command_cursor_spec().read_ptr as nat),
            );
        }
        let (msg, k) = match self.receive_next(ram, avail) {
            Err(e) => {
                return Err(e);
            },
            Ok(None) => {
                return Ok(None);
            },
            Ok(Some(x)) => x,
        };
        let silent = match self.answer_command(ram, policy, table, &msg) {
            Ok(b) => b,
            Err(e) => {
                return Err(e);
            },
        };
        let function = get_u32(msg.envelope.as_slice(), 12);
        self.commit_command(k);
        let t = if !silent && table.is_unload(function) {
            Some(self.unload_answered())
        } else {
            None
        };
        assert(answered_as_classed(*table, msg, s0, self.state()));
        Ok(Some((msg, k, t)))
    }
}


/// The sequence number `n` commands after `s`.
pub open spec fn seq_after(s: u32, n: nat) -> u32
    decreases n,
{
    if n == 0 {
        s
    } else {
        next_seq(seq_after(s, (n - 1) as nat))
    }
}

/// How many ring elements the commands `cmds` occupied, together.
pub open spec fn total_elements(cmds: Seq<IncomingRpc>) -> nat
    decreases cmds.len(),
{
    if cmds.len() == 0 {
        0
    } else {
        total_elements(cmds.drop_last()) + cmds.last().elements as nat
    }
}

/// The commands `done` were served, in order, and are all a pass consumed: each carried
/// the next sequence number, and our position and the sequence number the next command
/// must carry moved past them and no further.
pub open spec fn consumed(
    s0: GspState,
    b0: QueueBinding,
    s1: GspState,
    b1: QueueBinding,
    done: Seq<IncomingRpc>,
) -> bool {
    let n = b0.geometry_spec().header_spec().msg_count;
    let rp = (((b0.command_cursor_spec().read_ptr + total_elements(done)) as nat) % (n as nat)) as u32;
    &&& forall|i: int| 0 <= i < done.len() ==> #[trigger] done[i].seq_num == seq_after(s0.cmd_seq, i as nat)
    &&& s1.cmd_seq == seq_after(s0.cmd_seq, done.len())
    &&& b1.command_cursor_spec().read_ptr == rp
    &&& s1.cmd_read_ptr == if done.len() == 0 {
        s0.cmd_read_ptr
    } else {
        rp
    }
}

impl GspFsm {
    /// A pass refused with `e`: publish the consumption made so far, then refuse. A
    /// failure to publish — its location not writable guest RAM — is the refusal
    /// reported.
    fn refuse_acked<R: GuestRam>(&self, ram: &mut R, e: GspFault) -> (r: Result<ServiceReport, GspFault>)
        requires
            self.state().bound,
        ensures
            r is Err,
            r == Err::<ServiceReport, GspFault>(e) || r matches Err(GspFault::GuestRam(_)),
            ack_published(final(ram).memory(), self.binding()) || (r matches Err(GspFault::GuestRam(_))
                && !all_in(final(ram).writable(), ack_addrs(self.binding()))),
            all_in(old(ram).writable(), ack_addrs(self.binding())) ==> r == Err::<ServiceReport, GspFault>(e),
    {
        let ghost mem0 = ram.memory();
        match self.publish_command_ack(ram) {
            Ok(()) => {
                assert(ack_published(ram.memory(), self.binding())) by {
                    assert(ram.memory() == store(mem0, ack_addrs(self.binding()), le_bytes_u32(self.binding().command_cursor_spec().read_ptr)));
                }
                Err(e)
            },
            Err(a) => Err(a),
        }
    }

    /// **Drain the command queue**: serve every command the producer has finished
    /// writing, in order, then publish our consumption and enter `Running` once the guest
    /// is seen to have drained `GSP_INIT_DONE`.
    ///
    /// Each command is answered before it is consumed ([`GspFsm::serve_next`]), so a
    /// refusal — a full status queue among them — leaves the refused command to be read
    /// again. Whatever a pass consumed before it was refused is still published, so the
    /// guest's view of the queue never lags our position.
    ///
    /// On a refusal the commands consumed are exactly those answered as the table classes
    /// them — the status stream moved on once for each that takes a reply — and our
    /// position and the next sequence number are where the refused command begins. The
    /// acknowledgement is written unless its location is not writable guest RAM. Where
    /// everything the pass touches is usable guest RAM ([`queue_ram_usable`]), no refusal
    /// is a guest-RAM one but what the table's envelope check itself answered.
    ///
    /// A pass that succeeds consumed, in order, commands covering at most the elements the
    /// producer had made available when it began, and stopped short of them only at a
    /// command that needs more elements than were left — as guest RAM held it when the
    /// pass ended, but for the acknowledgement it wrote last.
    pub fn service_command_queue<R: GuestRam, P: CommandPolicy, T: FunctionTable>(
        &mut self,
        ram: &mut R,
        policy: &mut P,
        table: &T,
    ) -> (r: Result<ServiceReport, GspFault>)
        requires
            old(self).state().abi.element.hdr_size_spec() + 12 <= usize::MAX,
        ensures
            !old(self).state().bound ==> r == Err::<ServiceReport, GspFault>(GspFault::QueueNotBound)
                && final(self).state() == old(self).state() && final(ram).memory() == old(ram).memory(),
            old(self).state().bound ==> {
                &&& final(self).state().bound
                &&& final(self).state().abi == old(self).state().abi
                &&& final(self).binding().geometry_spec() == old(self).binding().geometry_spec()
            },
            old(self).state().bound ==> ack_published(final(ram).memory(), final(self).binding()) || (
            r matches Err(GspFault::GuestRam(_)) && !all_in(
                final(ram).writable(),
                ack_addrs(final(self).binding()),
            )),
            old(self).state().bound ==> (r matches Ok(rep) ==> {
                let geom = old(self).binding().geometry_spec();
                let n = geom.header_spec().msg_count;
                let rp0 = old(self).binding().command_cursor_spec().read_ptr;
                let b1 = final(self).binding();
                let rp1 = b1.command_cursor_spec().read_ptr;
                let total = total_elements(rep.commands@);
                &&& spec_available_elements(cmd_write_ptr(old(ram).memory(), geom), rp0, n) matches Ok(a)
                    && total <= a && (total == a || exists|m: Map<int, u8>|
                    final(ram).memory() == store(m, ack_addrs(b1), le_bytes_u32(rp1)) && #[trigger] received(
                        old(self).state().abi.element,
                        old(self).state().abi.element_size_max,
                        geom,
                        m,
                        rp1 as nat,
                        final(self).state().cmd_seq,
                        (a - total) as u32,
                        Ok(None),
                    ))
                &&& consumed(
                    old(self).state(),
                    old(self).binding(),
                    final(self).state(),
                    final(self).binding(),
                    rep.commands@,
                )
                &&& rep.raise_status_irq == final(self).state().swgen0_pending
            }),
            old(self).state().bound && queue_ram_usable(
                old(ram).memory(),
                old(ram).writable(),
                old(self).binding().geometry_spec(),
            ) ==> (r matches Err(e) ==> (e is GuestRam ==> table_refused(*table, e))),
            r matches Ok(rep) ==> exists|sts: Seq<u32>|
                #[trigger] replies_posted(*table, rep.commands@, sts) && sts[0]
                    == old(self).state().stat_seq && sts.last() == final(self).state().stat_seq,
            old(self).state().bound && r is Err ==> exists|done: Seq<IncomingRpc>, sts: Seq<u32>|
                consumed(old(self).state(), old(self).binding(), final(self).state(), final(self).binding(), done)
                    && #[trigger] replies_posted(*table, done, sts) && sts[0] == old(self).state().stat_seq
                    && sts.last() == final(self).state().stat_seq,
    {
        match &self.queue {
            QueueState::Bound(b) => {
                let _ = b.geometry().msg_count();
                let _ = b.command_cursor();
            },
            QueueState::Unbound => {
                return Err(GspFault::QueueNotBound);
            },
        }
        let ghost s0 = self.state();
        let ghost b0 = self.binding();
        let ghost n = b0.geometry_spec().header_spec().msg_count;
        let ghost rp0 = b0.command_cursor_spec().read_ptr;
        let mut report = ServiceReport { transitions: Vec::new(), commands: Vec::new(), raise_status_irq: false };
        let ghost mut stats: Seq<u32> = seq![s0.stat_seq];
        proof {
            assert(replies_posted(*table, report.commands@, stats));
            assert(rp0 < n);
            assert(report.commands@ =~= Seq::<IncomingRpc>::empty());
            assert(total_elements(report.commands@) == 0);
            vstd::arithmetic::div_mod::lemma_small_mod(rp0 as nat, n as nat);
        }
        let avail0 = match self.service_available(ram) {
            Ok(a) => a,
            Err(e) => {
                assert(consumed(s0, b0, self.state(), self.binding(), report.commands@));
                assert(replies_posted(*table, report.commands@, stats));
                return self.refuse_acked(ram, e);
            },
        };
        let mut avail = avail0;
        let ghost mut stopped = false;
        let ghost mut stop_mem = ram.memory();
        while avail > 0
            invariant
                ram.writable() == old(ram).writable(),
                ram.memory().dom() == old(ram).memory().dom(),
                replies_posted(*table, report.commands@, stats),
                stats[0] == s0.stat_seq,
                stats.last() == self.state().stat_seq,
                stopped ==> ram.memory() == stop_mem && received(
                    s0.abi.element,
                    s0.abi.element_size_max,
                    b0.geometry_spec(),
                    stop_mem,
                    self.binding().command_cursor_spec().read_ptr as nat,
                    self.state().cmd_seq,
                    avail,
                    Ok(None),
                ),
                s0.bound,
                s0.abi.element.hdr_size_spec() + 12 <= usize::MAX,
                n > 0,
                n == b0.geometry_spec().header_spec().msg_count,
                self.state().bound,
                self.state().abi == s0.abi,
                self.binding().geometry_spec() == b0.geometry_spec(),
                avail + total_elements(report.commands@) == avail0,
                forall|i: int|
                    0 <= i < report.commands@.len() ==> #[trigger] report.commands@[i].seq_num
                        == seq_after(s0.cmd_seq, i as nat),
                self.state().cmd_seq == seq_after(s0.cmd_seq, report.commands@.len()),
                self.binding().command_cursor_spec().read_ptr == (((rp0 + total_elements(
                    report.commands@,
                )) as nat) % (n as nat)) as u32,
                self.state().cmd_read_ptr == if report.commands@.len() == 0 {
                    s0.cmd_read_ptr
                } else {
                    self.binding().command_cursor_spec().read_ptr
                },
                s0 == old(self).state(),
                b0 == old(self).binding(),
                rp0 == b0.command_cursor_spec().read_ptr,
            ensures
                avail == 0 || stopped,
            decreases avail,
        {
            let ghost before = report.commands@;
            let ghost seq_i = self.state().cmd_seq;
            let ghost rp_i = self.binding().command_cursor_spec().read_ptr;
            let ghost st_i = self.state().stat_seq;
            proof {
                if queue_ram_usable(old(ram).memory(), old(ram).writable(), b0.geometry_spec()) {
                    lemma_usable_by_dom(
                        old(ram).memory(),
                        ram.memory(),
                        ram.writable(),
                        b0.geometry_spec(),
                    );
                }
            }
            match self.serve_next(ram, policy, table, avail) {
                Err(e) => {
                    assert(consumed(s0, b0, self.state(), self.binding(), report.commands@));
                    assert(replies_posted(*table, report.commands@, stats));
                    return self.refuse_acked(ram, e);
                },
                Ok(None) => {
                    proof {
                        stopped = true;
                        stop_mem = ram.memory();
                    }
                    break;
                },
                Ok(Some((m, k, t))) => {
                    avail = avail - k;
                    report.commands.push(m);
                    match t {
                        Some(tr) => report.transitions.push(tr),
                        None => {},
                    }
                    proof {
                        let old_stats = stats;
                        stats = stats.push(self.state().stat_seq);
                        assert forall|i: int| 0 <= i < report.commands@.len() implies reply_step(
                            *table,
                            #[trigger] report.commands@[i],
                            stats[i],
                            stats[i + 1],
                        ) by {
                            if i < before.len() {
                                assert(report.commands@[i] == before[i]);
                                assert(stats[i] == old_stats[i]);
                                assert(stats[i + 1] == old_stats[i + 1]);
                            } else {
                                assert(report.commands@[i] == m);
                                assert(stats[i] == st_i);
                            }
                        }
                        assert(report.commands@.drop_last() =~= before);
                        assert forall|i: int|
                            0 <= i < report.commands@.len() implies #[trigger] report.commands@[i].seq_num
                                == seq_after(s0.cmd_seq, i as nat) by {
                            if i < before.len() {
                                assert(report.commands@[i] == before[i]);
                            }
                        }
                        vstd::arithmetic::div_mod::lemma_add_mod_noop_right(
                            k as int,
                            rp0 + total_elements(before),
                            n as int,
                        );
                    }
                },
            }
        }
        let ghost mem1 = ram.memory();
        assert(consumed(s0, b0, self.state(), self.binding(), report.commands@));
        match self.service_finish(ram) {
            Err(e) => {
                assert(consumed(s0, b0, self.state(), self.binding(), report.commands@));
                return Err(e);
            },
            Ok(t) => {
                assert(ram.memory() == store(
                    mem1,
                    ack_addrs(self.binding()),
                    le_bytes_u32(self.binding().command_cursor_spec().read_ptr),
                ));
                if avail != 0 {
                    let ghost total = total_elements(report.commands@);
                    assert(avail == (avail0 - total) as u32);
                    assert(ram.memory() == store(
                        mem1,
                        ack_addrs(self.binding()),
                        le_bytes_u32(self.binding().command_cursor_spec().read_ptr),
                    ) && received(
                        s0.abi.element,
                        s0.abi.element_size_max,
                        b0.geometry_spec(),
                        mem1,
                        self.binding().command_cursor_spec().read_ptr as nat,
                        self.state().cmd_seq,
                        (avail0 - total) as u32,
                        Ok(None),
                    ));
                }
                match t {
                    Some(tr) => report.transitions.push(tr),
                    None => {},
                }
            },
        }
        report.raise_status_irq = self.swgen0_pending;
        assert(replies_posted(*table, report.commands@, stats) && stats[0] == s0.stat_seq
            && stats.last() == self.state().stat_seq);
        let ghost rr = Ok::<ServiceReport, GspFault>(report);
        assert(rr matches Ok(rep) ==> replies_posted(*table, rep.commands@, stats));
        assert(rr matches Ok(rep) ==> exists|sts: Seq<u32>|
                #[trigger] replies_posted(*table, rep.commands@, sts) && sts[0]
                    == old(self).state().stat_seq && sts.last() == self.state().stat_seq);
        Ok(report)
    }
}


impl GspFsm {
    /// The element layout this GSP was built with.
    pub fn element_layout(&self) -> (r: ElementLayout)
        ensures
            r == self.state().abi.element,
    {
        self.abi.element
    }

    /// Whether a publish through `libos` at `boot_args_gpa` stays inside the machine's
    /// integers: the region array's last entry is addressable, the fields read out of an
    /// entry and out of the init args have addressable ends, and the bound on entries
    /// read fits a byte count. What [`GspFsm::publish`] requires.
    pub fn publish_admissible(&self, libos: &LibosRegionLayout, boot_args_gpa: u64) -> (r: bool)
        ensures
            r == (libos_scannable(*libos, boot_args_gpa) && init_args_readable(self.state().abi.init_args)
                && self.state().max_entries * 8 <= usize::MAX),
    {
        let scan_ok = if libos.max_entries == 0 {
            true
        } else {
            let a = (libos.max_entries - 1) as u64;
            let b = libos.entry_stride as u64;
            match a.checked_mul(b) {
                None => false,
                Some(p) => match boot_args_gpa.checked_add(p) {
                    None => false,
                    Some(_) => true,
                },
            }
        };
        let il = &self.abi.init_args;
        let fields_ok = libos.id_offset <= usize::MAX - 8 && libos.pa_offset <= usize::MAX - 8
            && il.shared_mem_pa_off <= usize::MAX - 8 && il.pte_count_off <= usize::MAX - 4
            && il.cmd_queue_off_off <= usize::MAX - 8 && il.stat_queue_off_off <= usize::MAX - 8
            && match il.element_hdr_size_off {
            Some(o) => o <= usize::MAX - 8,
            None => true,
        };
        let entries_ok = self.max_entries as u64 <= (usize::MAX / 8) as u64;
        scan_ok && fields_ok && entries_ok
    }
}

} // verus!
