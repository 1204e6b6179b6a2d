//! The boot state machine driven over a guest RAM: publish, post, receive, teardown.

use std::collections::BTreeMap;

use lib::boot::{
    reply_to, CommandPolicy, EchoOk, FunctionTable, PolicyChain, Reply, ServiceReport,
    find_rmargs, read_u32, read_u64, BootPhase, GspAbi, GspFsm, InitArgsLayout, LibosRegionLayout,
    QueueState, Transition,
};
use lib::element::{decode_message, encode_message, peek_len, ElementLayout, IncomingRpc, OutgoingRpc, TransportHdr};
use lib::fault::{GspFault, RamRefused};
use lib::ram::GuestRam;
use lib::ring::{MsgqAbi, TxHeader};

struct MapRam {
    bytes: BTreeMap<u64, u8>,
}

impl MapRam {
    fn new() -> MapRam {
        MapRam { bytes: BTreeMap::new() }
    }
    fn fill(&mut self, gpa: u64, data: &[u8]) {
        for (i, b) in data.iter().enumerate() {
            self.bytes.insert(gpa + i as u64, *b);
        }
    }
    fn zero(&mut self, gpa: u64, len: u64) {
        for i in 0..len {
            self.bytes.insert(gpa + i, 0);
        }
    }
    fn get(&self, gpa: u64, len: usize) -> Vec<u8> {
        (0..len as u64).map(|i| self.bytes[&(gpa + i)]).collect()
    }
    fn u32_at(&self, gpa: u64) -> u32 {
        let b = self.get(gpa, 4);
        u32::from_le_bytes([b[0], b[1], b[2], b[3]])
    }
}

impl GuestRam for MapRam {
    fn memory(&self) -> vstd::map::Map<vstd::prelude::int, u8> {
        unreachable!("guest memory as a map exists only in proofs")
    }

    fn writable(&self) -> vstd::set::Set<vstd::prelude::int> {
        unreachable!("the writable addresses as a set exist only in proofs")
    }

    fn read(&mut self, gpa: u64, buf: &mut [u8]) -> Result<(), RamRefused> {
        for i in 0..buf.len() {
            match self.bytes.get(&(gpa + i as u64)) {
                Some(b) => buf[i] = *b,
                None => return Err(RamRefused { gpa, len: buf.len() }),
            }
        }
        Ok(())
    }
    fn write(&mut self, gpa: u64, bytes: &[u8]) -> Result<(), RamRefused> {
        for i in 0..bytes.len() {
            if !self.bytes.contains_key(&(gpa + i as u64)) {
                return Err(RamRefused { gpa, len: bytes.len() });
            }
        }
        self.fill(gpa, bytes);
        Ok(())
    }
}

const PAGE0: u64 = 0x10000;
const PAGE1: u64 = 0x30000;
const BOOT_ARGS: u64 = 0x50000;
const RMARGS_PA: u64 = 0x60000;
const RMARGS_ID: u64 = 0x5347_524d;
const CMD_OFF: u64 = 0x100;
const STAT_OFF: u64 = 0x1000;
const SIGNATURE: u32 = 0x4356_5253;
const HEADER_VERSION: u32 = 0x0300_0000;
const INIT_DONE: u32 = 0x1001;

fn layout() -> ElementLayout {
    ElementLayout::new(48, 32, 36, Some(40), TransportHdr::NoTransport).unwrap()
}

fn abi() -> GspAbi {
    GspAbi {
        msgq: MsgqAbi { version: 0, msg_size_min: 16, swap_rx_flag: 1, region_page_size: 4096 },
        element: layout(),
        header_version: HEADER_VERSION,
        signature: SIGNATURE,
        init_done_function: INIT_DONE,
        element_size_max: 4096,
        init_args: InitArgsLayout {
            shared_mem_pa_off: 0,
            pte_count_off: 8,
            cmd_queue_off_off: 16,
            stat_queue_off_off: 24,
            min_size: 32,
            element_hdr_size_off: None,
        },
    }
}

fn libos() -> LibosRegionLayout {
    LibosRegionLayout { entry_stride: 32, max_entries: 4, id_offset: 0, pa_offset: 8, rmargs_id: RMARGS_ID }
}

fn guest_header() -> TxHeader {
    TxHeader {
        version: 0,
        size: 0x800,
        msg_size: 0x100,
        msg_count: 7,
        write_ptr: 0,
        flags: 1,
        rx_hdr_off: 32,
        entry_off: 0x100,
    }
}

/// Region offset → guest-physical address, for the two-page region.
fn gpa(off: u64) -> u64 {
    if off < 0x1000 {
        PAGE0 + off
    } else {
        PAGE1 + off - 0x1000
    }
}

/// A guest that allocated a two-page queue region and declared it.
fn guest() -> MapRam {
    let mut ram = MapRam::new();
    ram.zero(PAGE0, 0x1000);
    ram.zero(PAGE1, 0x1000);
    // the region's own page table, at the start of page 0
    ram.fill(PAGE0, &PAGE0.to_le_bytes());
    ram.fill(PAGE0 + 8, &PAGE1.to_le_bytes());
    // the command queue's tx header
    ram.fill(gpa(CMD_OFF), &guest_header().encode());
    // the LibOS region array: a foreign entry, then RMARGS
    ram.zero(BOOT_ARGS, 4 * 32);
    ram.fill(BOOT_ARGS, &0x1111u64.to_le_bytes());
    ram.fill(BOOT_ARGS + 32, &RMARGS_ID.to_le_bytes());
    ram.fill(BOOT_ARGS + 40, &RMARGS_PA.to_le_bytes());
    // the init args
    ram.zero(RMARGS_PA, 32);
    ram.fill(RMARGS_PA, &PAGE0.to_le_bytes());
    ram.fill(RMARGS_PA + 8, &2u32.to_le_bytes());
    ram.fill(RMARGS_PA + 16, &CMD_OFF.to_le_bytes());
    ram.fill(RMARGS_PA + 24, &STAT_OFF.to_le_bytes());
    ram
}

fn booted(ram: &mut MapRam) -> GspFsm {
    let mut fsm = GspFsm::new(abi());
    assert_eq!(fsm.gsp_startcpu(), Transition::E1);
    assert_eq!(fsm.firmware_loaded(), Some(Transition::E5));
    fsm.boot_args_lo(BOOT_ARGS as u32);
    fsm.boot_args_hi(0);
    fsm.publish(ram, &libos(), BOOT_ARGS).unwrap();
    fsm
}

fn command(seq_num: u32, function: u32, payload: Vec<u8>) -> Vec<u8> {
    let rpc = OutgoingRpc { function, sequence: 9, rpc_result: 0, rpc_result_private: 0, payload };
    encode_message(&layout(), HEADER_VERSION, SIGNATURE, 0x100, 4096, seq_num, &rpc).unwrap()
}

#[test]
fn a_cold_device_walks_the_phase_graph() {
    let mut fsm = GspFsm::new(abi());
    assert_eq!(fsm.phase(), BootPhase::Cold);
    assert_eq!(fsm.firmware_loaded(), None, "Booted is reachable only from ProtectedRegionUp");
    assert_eq!(fsm.gsp_startcpu(), Transition::E1);
    assert_eq!(fsm.phase(), BootPhase::ProtectedRegionUp);
    assert_eq!(fsm.gsp_startcpu(), Transition::E3);
    assert_eq!(fsm.firmware_loaded(), Some(Transition::E5));
    assert_eq!(fsm.phase(), BootPhase::Booted);
    assert_eq!(fsm.unload_answered(), Transition::E9);
    assert_eq!(fsm.gsp_startcpu(), Transition::E2, "the trailing teardown start");
    assert_eq!(fsm.phase(), BootPhase::Halted);
    assert_eq!(fsm.gsp_startcpu(), Transition::E1);
    assert_eq!(fsm.teardown(), Transition::E4);
    assert_eq!(fsm.phase(), BootPhase::Halted);
    assert_eq!(fsm.device_reset(), Transition::E11);
    assert_eq!(fsm.phase(), BootPhase::Cold);
}

#[test]
fn a_doorbell_routes_by_binding_and_phase() {
    let mut fsm = GspFsm::new(abi());
    assert_eq!(fsm.doorbell_route(), Ok(Transition::E12), "the healthy early doorbell");
    fsm.gsp_startcpu();
    fsm.teardown();
    assert_eq!(fsm.doorbell_route(), Err(GspFault::QueueNotBound), "the stale-binding signature");
    let mut ram = guest();
    let fsm = booted(&mut ram);
    assert_eq!(fsm.doorbell_route(), Ok(Transition::E7));
}

#[test]
fn boot_args_are_shadowed() {
    let mut fsm = GspFsm::new(abi());
    fsm.boot_args_lo(0x1234);
    fsm.boot_args_hi(0x5678);
    assert_eq!(fsm.boot_args(), (0x1234, 0x5678));
    assert!(!fsm.status_irq_pending());
}

#[test]
fn the_region_array_is_searched_by_id() {
    let mut ram = guest();
    assert_eq!(find_rmargs(&mut ram, BOOT_ARGS, &libos()), Ok(RMARGS_PA));
    let mut none = guest();
    none.fill(BOOT_ARGS + 32, &0u64.to_le_bytes());
    assert_eq!(
        find_rmargs(&mut none, BOOT_ARGS, &libos()),
        Err(GspFault::RmargsRegionAbsent { scanned: 4 })
    );
}

#[test]
fn field_reads_name_their_truncation() {
    let b = [1u8, 0, 0, 0, 2, 0, 0, 0];
    assert_eq!(read_u32(&b, 4), Ok(2));
    assert_eq!(read_u64(&b, 0), Ok(0x2_0000_0001));
    assert_eq!(read_u64(&b, 1), Err(GspFault::Truncated { need: 9, have: 8 }));
    assert_eq!(read_u32(&b, 5), Err(GspFault::Truncated { need: 9, have: 8 }));
}

#[test]
fn publish_binds_writes_the_header_and_posts_init_done() {
    let mut ram = guest();
    let fsm = booted(&mut ram);
    assert!(matches!(fsm.queue(), QueueState::Bound(_)));
    assert!(fsm.status_irq_pending());
    // the status header is the guest's own, with the write pointer reset
    let published = TxHeader::decode(&ram.get(gpa(STAT_OFF), 32)).unwrap();
    assert_eq!(published, TxHeader { write_ptr: 1, ..guest_header() }, "INIT_DONE advanced it");
    // INIT_DONE sits in status slot 0
    let element = ram.get(gpa(STAT_OFF + 0x100), 0x100);
    let len = peek_len(&layout(), &element, 0x100, 4096).unwrap();
    let msg = decode_message(&layout(), &element, len, 0).unwrap();
    assert_eq!(msg.seq_num, 0);
    assert_eq!(u32::from_le_bytes([msg.envelope[12], msg.envelope[13], msg.envelope[14], msg.envelope[15]]), INIT_DONE);
    assert!(msg.payload.is_empty());
    if let QueueState::Bound(b) = fsm.queue() {
        assert_eq!(b.status_cursor().write_ptr, 1);
        assert_eq!(b.status_cursor().free_cache, 5);
        assert_eq!(b.command_cursor().read_ptr, 0);
        assert_eq!(b.geometry().element_size(), 0x100);
    }
}

#[test]
fn a_command_is_received_committed_and_acknowledged() {
    let mut ram = guest();
    let mut fsm = booted(&mut ram);
    ram.fill(gpa(CMD_OFF + 0x100), &command(0, 0x48, vec![7; 20]));
    ram.fill(gpa(CMD_OFF + 16), &1u32.to_le_bytes());
    let avail = fsm.service_available(&mut ram).unwrap();
    assert_eq!(avail, 1);
    let (msg, k) = fsm.receive_next(&mut ram, avail).unwrap().unwrap();
    assert_eq!(k, 1);
    assert_eq!(msg.seq_num, 0);
    assert_eq!(msg.payload, vec![7; 20]);
    fsm.commit_command(k);
    // the guest has not drained INIT_DONE yet
    assert_eq!(fsm.service_finish(&mut ram), Ok(None));
    assert_eq!(ram.u32_at(gpa(STAT_OFF + 32)), 1, "our consumption, in the swapped location");
    // the guest drains INIT_DONE
    ram.fill(gpa(CMD_OFF + 32), &1u32.to_le_bytes());
    assert_eq!(fsm.service_finish(&mut ram), Ok(Some(Transition::Running)));
    assert_eq!(fsm.phase(), BootPhase::Running);
    // a second command must carry the next sequence number
    ram.fill(gpa(CMD_OFF + 0x200), &command(0, 0x48, vec![]));
    ram.fill(gpa(CMD_OFF + 16), &2u32.to_le_bytes());
    let avail = fsm.service_available(&mut ram).unwrap();
    assert_eq!(fsm.receive_next(&mut ram, avail), Err(GspFault::SeqNumGap { expected: 1, got: 0 }));
}

#[test]
fn a_command_not_yet_written_whole_waits() {
    let mut ram = guest();
    let fsm = booted(&mut ram);
    let run = command(0, 0x48, vec![1; 600]);
    assert_eq!(run.len(), 0x300);
    ram.fill(gpa(CMD_OFF + 0x100), &run[..0x100]);
    ram.fill(gpa(CMD_OFF + 16), &1u32.to_le_bytes());
    let avail = fsm.service_available(&mut ram).unwrap();
    assert_eq!(fsm.receive_next(&mut ram, avail), Ok(None));
    ram.fill(gpa(CMD_OFF + 0x200), &run[0x100..]);
    ram.fill(gpa(CMD_OFF + 16), &3u32.to_le_bytes());
    let avail = fsm.service_available(&mut ram).unwrap();
    let (msg, k) = fsm.receive_next(&mut ram, avail).unwrap().unwrap();
    assert_eq!(k, 3);
    assert_eq!(msg.payload, vec![1; 600]);
}

#[test]
fn an_element_count_that_disagrees_is_refused() {
    let mut ram = guest();
    let fsm = booted(&mut ram);
    let mut run = command(0, 0x48, vec![]);
    run[40..44].copy_from_slice(&2u32.to_le_bytes());
    ram.fill(gpa(CMD_OFF + 0x100), &run);
    ram.fill(gpa(CMD_OFF + 16), &1u32.to_le_bytes());
    let avail = fsm.service_available(&mut ram).unwrap();
    assert_eq!(
        fsm.receive_next(&mut ram, avail),
        Err(GspFault::ElementCountMismatch { declared: 2, derived: 1 })
    );
    run[40..44].copy_from_slice(&17u32.to_le_bytes());
    ram.fill(gpa(CMD_OFF + 0x100), &run);
    assert_eq!(
        fsm.receive_next(&mut ram, avail),
        Err(GspFault::ElementCountOutOfRange { count: 17, max: 16 })
    );
}

#[test]
fn a_hostile_write_pointer_is_named() {
    let mut ram = guest();
    let fsm = booted(&mut ram);
    ram.fill(gpa(CMD_OFF + 16), &9u32.to_le_bytes());
    assert_eq!(
        fsm.service_available(&mut ram),
        Err(GspFault::PeerWritePtrOutOfRange { value: 9, count: 7 })
    );
}

#[test]
fn posting_into_a_full_ring_is_refused_and_retryable() {
    let mut ram = guest();
    let mut fsm = booted(&mut ram);
    let ev = OutgoingRpc { function: 0x1002, sequence: 0, rpc_result: 0, rpc_result_private: 0, payload: vec![] };
    for _ in 0..5 {
        fsm.post(&mut ram, &ev).unwrap();
    }
    assert_eq!(fsm.post(&mut ram, &ev), Err(GspFault::QueueFull { needed: 1, free: 0 }));
    // the guest consumes three
    ram.fill(gpa(CMD_OFF + 32), &3u32.to_le_bytes());
    fsm.post(&mut ram, &ev).unwrap();
    assert_eq!(ram.u32_at(gpa(STAT_OFF + 16)), 0, "the write pointer wrapped");
}

#[test]
fn an_unsolicited_event_waits_for_running() {
    let mut ram = guest();
    let mut fsm = booted(&mut ram);
    let ev = OutgoingRpc { function: 0x1003, sequence: 0, rpc_result: 0, rpc_result_private: 0, payload: vec![] };
    assert_eq!(fsm.post_event(&mut ram, &ev, false), Err(GspFault::NotRunning));
    assert_eq!(fsm.post_event(&mut ram, &ev, true), Ok(()));
}

#[test]
fn posting_unbound_is_refused() {
    let mut ram = guest();
    let mut fsm = GspFsm::new(abi());
    let ev = OutgoingRpc { function: 0x1003, sequence: 0, rpc_result: 0, rpc_result_private: 0, payload: vec![] };
    assert_eq!(fsm.post(&mut ram, &ev), Err(GspFault::QueueNotBound));
    assert_eq!(fsm.service_available(&mut ram), Err(GspFault::QueueNotBound));
}

#[test]
fn a_rebind_of_the_same_region_keeps_the_sequence() {
    let mut ram = guest();
    let mut fsm = booted(&mut ram);
    let ev = OutgoingRpc { function: 0x1002, sequence: 0, rpc_result: 0, rpc_result_private: 0, payload: vec![] };
    fsm.post(&mut ram, &ev).unwrap();
    // two posted: INIT_DONE at 0, the event at 1; a rebind of the same region posts at 2
    fsm.publish(&mut ram, &libos(), BOOT_ARGS).unwrap();
    let element = ram.get(gpa(STAT_OFF + 0x100), 0x100);
    let len = peek_len(&layout(), &element, 0x100, 4096).unwrap();
    assert_eq!(decode_message(&layout(), &element, len, 2).unwrap().seq_num, 2);
}

#[test]
fn a_new_region_restarts_the_sequence() {
    let mut ram = guest();
    let mut fsm = booted(&mut ram);
    let ev = OutgoingRpc { function: 0x1002, sequence: 0, rpc_result: 0, rpc_result_private: 0, payload: vec![] };
    fsm.post(&mut ram, &ev).unwrap();
    // a new module load: the same pages, described by a table at a new address
    ram.zero(0x70000, 0x1000);
    ram.fill(0x70000, &PAGE0.to_le_bytes());
    ram.fill(0x70008, &PAGE1.to_le_bytes());
    ram.fill(RMARGS_PA, &0x70000u64.to_le_bytes());
    fsm.publish(&mut ram, &libos(), BOOT_ARGS).unwrap();
    let element = ram.get(gpa(STAT_OFF + 0x100), 0x100);
    let len = peek_len(&layout(), &element, 0x100, 4096).unwrap();
    assert_eq!(decode_message(&layout(), &element, len, 0).unwrap().seq_num, 0);
}

#[test]
fn a_declared_header_size_must_match() {
    let mut ram = guest();
    let mut a = abi();
    a.init_args.element_hdr_size_off = Some(32);
    a.init_args.min_size = 40;
    ram.zero(RMARGS_PA + 32, 8);
    ram.fill(RMARGS_PA + 32, &16u64.to_le_bytes());
    let mut fsm = GspFsm::new(a);
    assert_eq!(
        fsm.publish(&mut ram, &libos(), BOOT_ARGS),
        Err(GspFault::DeclaredHeaderSizeMismatch { declared: 16, expected: 48 })
    );
}

#[test]
fn a_teardown_drops_the_binding() {
    let mut ram = guest();
    let mut fsm = booted(&mut ram);
    assert_eq!(fsm.teardown(), Transition::E4);
    assert!(matches!(fsm.queue(), QueueState::Unbound));
    assert_eq!(fsm.doorbell_route(), Err(GspFault::QueueNotBound));
    assert_eq!(fsm.clear_status_irq(), Transition::E10);
    assert!(!fsm.status_irq_pending());
}

#[test]
fn the_baseline_policy_answers_nothing_so_the_machine_acknowledges() {
    let cmd = IncomingRpc {
        seq_num: 0,
        envelope: vec![0; 32],
        elements: 1,
        payload: vec![1, 2, 3],
        delivered: vec![1, 2, 3],
    };
    assert_eq!(EchoOk.respond(&cmd), None);
    let report = ServiceReport::default();
    assert!(report.transitions.is_empty() && report.commands.is_empty() && !report.raise_status_irq);
}

/// An ABI table for the service-pass tests: one function takes no reply, one is the
/// unload command, one has an envelope the table refuses.
struct Table {
    silent: u32,
    unload: u32,
    refused: u32,
}

impl FunctionTable for Table {
    fn check_envelope(&self, cmd: &IncomingRpc) -> Result<(), GspFault> {
        let envelope = cmd.envelope.as_slice();
        if envelope.len() < 32 {
            return Err(GspFault::Truncated { need: 32, have: envelope.len() });
        }
        let function = u32::from_le_bytes([envelope[12], envelope[13], envelope[14], envelope[15]]);
        if function == self.refused {
            return Err(GspFault::TransportHeaderInvalid { offset: 12, found: function, expected: 0 });
        }
        Ok(())
    }
    fn no_reply(&self, function: u32) -> bool {
        function == self.silent
    }
    fn is_unload(&self, function: u32) -> bool {
        function == self.unload
    }
}

fn table() -> Table {
    Table { silent: 0x77, unload: 0x55, refused: 0x99 }
}

/// Answers every command with result 3 and a four-byte body.
struct Answers;

impl CommandPolicy for Answers {
    fn respond(&mut self, _cmd: &IncomingRpc) -> Option<Reply> {
        Some(Reply { rpc_result: 3, body: vec![9, 9, 9, 9] })
    }
}

/// Put a command in slot `slot` of the command ring.
fn put_command(ram: &mut MapRam, slot: u64, seq_num: u32, function: u32, payload: Vec<u8>) {
    ram.fill(gpa(CMD_OFF + 0x100 * (slot + 1)), &command(seq_num, function, payload));
}

fn set_cmd_write_ptr(ram: &mut MapRam, v: u32) {
    ram.fill(gpa(CMD_OFF + 16), &v.to_le_bytes());
}

/// Our published consumption of the command queue.
fn ack(ram: &MapRam) -> u32 {
    ram.u32_at(gpa(STAT_OFF + 32))
}

/// The status queue's write pointer.
fn stat_write_ptr(ram: &MapRam) -> u32 {
    ram.u32_at(gpa(STAT_OFF + 16))
}

#[test]
fn a_service_pass_drains_every_finished_command_in_order() {
    let mut ram = guest();
    let mut fsm = booted(&mut ram);
    put_command(&mut ram, 0, 0, 0x48, vec![1, 2, 3]);
    put_command(&mut ram, 1, 1, 0x48, vec![4, 5]);
    set_cmd_write_ptr(&mut ram, 2);
    let report = fsm.service_command_queue(&mut ram, &mut EchoOk, &table()).unwrap();
    assert_eq!(report.commands.len(), 2);
    assert_eq!(report.commands[0].seq_num, 0);
    assert_eq!(report.commands[0].payload, vec![1, 2, 3]);
    assert_eq!(report.commands[1].seq_num, 1);
    assert_eq!(report.commands[1].payload, vec![4, 5]);
    assert!(report.transitions.is_empty(), "the guest has not drained INIT_DONE");
    assert_eq!(ack(&ram), 2);
    assert_eq!(stat_write_ptr(&ram), 3, "INIT_DONE and one acknowledgement per command");
    assert!(report.raise_status_irq);
    assert_eq!(report.raise_status_irq, fsm.status_irq_pending());
    // nothing new: an empty pass still publishes the same position
    let again = fsm.service_command_queue(&mut ram, &mut EchoOk, &table()).unwrap();
    assert!(again.commands.is_empty());
    assert_eq!(ack(&ram), 2);
}

#[test]
fn a_pass_enters_running_once_init_done_is_drained() {
    let mut ram = guest();
    let mut fsm = booted(&mut ram);
    put_command(&mut ram, 0, 0, 0x48, vec![]);
    set_cmd_write_ptr(&mut ram, 1);
    ram.fill(gpa(CMD_OFF + 32), &1u32.to_le_bytes());
    let report = fsm.service_command_queue(&mut ram, &mut EchoOk, &table()).unwrap();
    assert_eq!(report.transitions, vec![Transition::Running]);
    assert_eq!(fsm.phase(), BootPhase::Running);
}

#[test]
fn a_full_status_queue_leaves_the_command_to_be_read_again() {
    let mut ram = guest();
    let mut fsm = booted(&mut ram);
    let ev = OutgoingRpc { function: 0x1002, sequence: 0, rpc_result: 0, rpc_result_private: 0, payload: vec![] };
    for _ in 0..5 {
        fsm.post(&mut ram, &ev).unwrap();
    }
    put_command(&mut ram, 0, 0, 0x48, vec![6]);
    set_cmd_write_ptr(&mut ram, 1);
    assert_eq!(
        fsm.service_command_queue(&mut ram, &mut EchoOk, &table()),
        Err(GspFault::QueueFull { needed: 1, free: 0 })
    );
    assert_eq!(ack(&ram), 0, "the refused command is not consumed");
    // the guest drains the status queue; the next pass serves the same command
    ram.fill(gpa(CMD_OFF + 32), &6u32.to_le_bytes());
    let report = fsm.service_command_queue(&mut ram, &mut EchoOk, &table()).unwrap();
    assert_eq!(report.commands.len(), 1);
    assert_eq!(report.commands[0].seq_num, 0);
    assert_eq!(report.commands[0].payload, vec![6]);
    assert_eq!(ack(&ram), 1);
}

#[test]
fn what_a_refused_pass_consumed_is_still_published() {
    let mut ram = guest();
    let mut fsm = booted(&mut ram);
    let ev = OutgoingRpc { function: 0x1002, sequence: 0, rpc_result: 0, rpc_result_private: 0, payload: vec![] };
    for _ in 0..4 {
        fsm.post(&mut ram, &ev).unwrap();
    }
    put_command(&mut ram, 0, 0, 0x48, vec![]);
    put_command(&mut ram, 1, 1, 0x48, vec![]);
    set_cmd_write_ptr(&mut ram, 2);
    assert_eq!(
        fsm.service_command_queue(&mut ram, &mut EchoOk, &table()),
        Err(GspFault::QueueFull { needed: 1, free: 0 })
    );
    assert_eq!(ack(&ram), 1, "the first command was answered and consumed");
    ram.fill(gpa(CMD_OFF + 32), &6u32.to_le_bytes());
    let report = fsm.service_command_queue(&mut ram, &mut EchoOk, &table()).unwrap();
    assert_eq!(report.commands.len(), 1);
    assert_eq!(report.commands[0].seq_num, 1);
    assert_eq!(ack(&ram), 2);
}

#[test]
fn a_refused_envelope_is_not_consumed() {
    let mut ram = guest();
    let mut fsm = booted(&mut ram);
    put_command(&mut ram, 0, 0, 0x99, vec![]);
    set_cmd_write_ptr(&mut ram, 1);
    assert_eq!(
        fsm.service_command_queue(&mut ram, &mut EchoOk, &table()),
        Err(GspFault::TransportHeaderInvalid { offset: 12, found: 0x99, expected: 0 })
    );
    assert_eq!(ack(&ram), 0);
    assert_eq!(stat_write_ptr(&ram), 1, "nothing was answered");
    let lenient = Table { silent: 0x77, unload: 0x55, refused: 0 };
    let report = fsm.service_command_queue(&mut ram, &mut EchoOk, &lenient).unwrap();
    assert_eq!(report.commands.len(), 1);
    assert_eq!(ack(&ram), 1);
}

#[test]
fn a_command_that_takes_no_reply_is_consumed_silently() {
    let mut ram = guest();
    let mut fsm = booted(&mut ram);
    put_command(&mut ram, 0, 0, 0x77, vec![1]);
    set_cmd_write_ptr(&mut ram, 1);
    let report = fsm.service_command_queue(&mut ram, &mut Answers, &table()).unwrap();
    assert_eq!(report.commands.len(), 1);
    assert_eq!(ack(&ram), 1);
    assert_eq!(stat_write_ptr(&ram), 1, "no reply was posted");
}

#[test]
fn the_unload_command_is_answered_then_suspends() {
    let mut ram = guest();
    let mut fsm = booted(&mut ram);
    put_command(&mut ram, 0, 0, 0x55, vec![]);
    set_cmd_write_ptr(&mut ram, 1);
    let report = fsm.service_command_queue(&mut ram, &mut EchoOk, &table()).unwrap();
    assert_eq!(report.transitions, vec![Transition::E9]);
    assert_eq!(fsm.phase(), BootPhase::Suspending);
    assert_eq!(stat_write_ptr(&ram), 2, "the reply went out first");
}

#[test]
fn serve_next_answers_before_it_commits() {
    let mut ram = guest();
    let mut fsm = booted(&mut ram);
    put_command(&mut ram, 0, 0, 0x48, vec![1, 2]);
    set_cmd_write_ptr(&mut ram, 1);
    let avail = fsm.service_available(&mut ram).unwrap();
    let (msg, k, t) = fsm.serve_next(&mut ram, &mut Answers, &table(), avail).unwrap().unwrap();
    assert_eq!((msg.seq_num, k, t), (0, 1, None));
    assert_eq!(stat_write_ptr(&ram), 2);
    // not yet published: that is the pass's last step
    assert_eq!(ack(&ram), 0);
    // a next command whose element the producer has not yet counted waits
    put_command(&mut ram, 1, 1, 0x48, vec![]);
    assert_eq!(fsm.serve_next(&mut ram, &mut Answers, &table(), 0), Ok(None));
}

#[test]
fn serving_unbound_is_refused() {
    let mut ram = guest();
    let mut fsm = GspFsm::new(abi());
    assert_eq!(fsm.service_command_queue(&mut ram, &mut EchoOk, &table()), Err(GspFault::QueueNotBound));
}

#[test]
fn a_reply_carries_the_request_ids_and_a_clamped_body() {
    let mut envelope = vec![0u8; 32];
    envelope[12..16].copy_from_slice(&0x48u32.to_le_bytes());
    envelope[24..28].copy_from_slice(&0x1234u32.to_le_bytes());
    let cmd = IncomingRpc { seq_num: 0, envelope, elements: 1, payload: vec![1, 2, 3], delivered: vec![1, 2, 3] };
    let r = reply_to(&cmd, 5, &vec![9, 8, 7, 6, 5]);
    assert_eq!(r.function, 0x48);
    assert_eq!(r.sequence, 0x1234);
    assert_eq!((r.rpc_result, r.rpc_result_private), (5, 5));
    assert_eq!(r.payload, vec![9, 8, 7]);
    let short = reply_to(&cmd, 0, &vec![4]);
    assert_eq!(short.payload, vec![4]);
}

#[test]
fn publish_admissibility_is_checked_before_publishing() {
    let fsm = GspFsm::new(abi());
    assert!(fsm.publish_admissible(&libos(), BOOT_ARGS));
    assert!(!fsm.publish_admissible(&libos(), u64::MAX));
    let wide = LibosRegionLayout { id_offset: usize::MAX, ..libos() };
    assert!(!fsm.publish_admissible(&wide, BOOT_ARGS));
    assert_eq!(fsm.element_layout(), layout());
}

#[test]
fn a_pass_stops_at_a_command_not_yet_written_whole() {
    let mut ram = guest();
    let mut fsm = booted(&mut ram);
    put_command(&mut ram, 0, 0, 0x48, vec![]);
    let run = command(1, 0x48, vec![2; 600]);
    ram.fill(gpa(CMD_OFF + 0x200), &run[..0x100]);
    set_cmd_write_ptr(&mut ram, 2);
    let report = fsm.service_command_queue(&mut ram, &mut EchoOk, &table()).unwrap();
    assert_eq!(report.commands.len(), 1);
    assert_eq!(ack(&ram), 1);
    ram.fill(gpa(CMD_OFF + 0x300), &run[0x100..]);
    set_cmd_write_ptr(&mut ram, 4);
    let report = fsm.service_command_queue(&mut ram, &mut EchoOk, &table()).unwrap();
    assert_eq!(report.commands.len(), 1);
    assert_eq!(report.commands[0].seq_num, 1);
    assert_eq!(report.commands[0].payload, vec![2; 600]);
    assert_eq!(ack(&ram), 4);
}

/// Answers only commands whose payload starts with `key`, with result `key`.
struct Keyed {
    key: u8,
}

impl CommandPolicy for Keyed {
    fn respond(&mut self, cmd: &IncomingRpc) -> Option<Reply> {
        if cmd.payload.first() == Some(&self.key) {
            Some(Reply { rpc_result: self.key as u32, body: vec![] })
        } else {
            None
        }
    }
}

#[test]
fn a_policy_chain_answers_with_its_first_link_that_answers() {
    let cmd = |first: u8| IncomingRpc {
        seq_num: 0,
        envelope: vec![0; 32],
        elements: 1,
        payload: vec![first],
        delivered: vec![first],
    };
    let mut empty = PolicyChain::new(vec![]);
    assert!(empty.is_empty());
    assert_eq!(empty.respond(&cmd(1)), None);
    let mut chain = PolicyChain::new(vec![
        Box::new(Keyed { key: 1 }),
        Box::new(Answers),
        Box::new(Keyed { key: 2 }),
    ]);
    assert_eq!(chain.len(), 3);
    assert!(!chain.is_empty());
    assert_eq!(chain.respond(&cmd(1)), Some(Reply { rpc_result: 1, body: vec![] }));
    assert_eq!(chain.respond(&cmd(2)), Some(Reply { rpc_result: 3, body: vec![9, 9, 9, 9] }));
    let mut keyed = PolicyChain::new(vec![Box::new(Keyed { key: 1 })]);
    assert_eq!(keyed.respond(&cmd(5)), None);
}
