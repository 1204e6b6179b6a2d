//! The fetch phase: a planned read's bytes, run by run, with every refusal named.

use lib::aperture::Aperture;
use lib::fetch::{
    check_runs_fit, fetch_pushbuffer, fetch_ring_bytes, guest_read_fault, FbBytes, FbSource,
    FbSourceRef, GuestRead, GuestReadError,
};
use lib::forwarding::FwdFault;
use lib::plans::{PlannedRange, PushPlan, RingPlan};
use lib::table::{PushRun, PushSrc};
use std::sync::Mutex;

/// A framebuffer store with one backed window; pages it was told were written answer
/// `Some(true)`, every other page `Some(false)` — or `None` when it cannot tell.
struct Store {
    base: u64,
    bytes: Vec<u8>,
    tracks: bool,
    written: Vec<u64>,
    reads: usize,
}

impl Store {
    fn new(base: u64, bytes: Vec<u8>) -> Store {
        Store { base, bytes, tracks: true, written: vec![base], reads: 0 }
    }
}

impl FbBytes for Store {
    fn read(&mut self, phys: u64, buf: &mut Vec<u8>) -> bool {
        self.reads += 1;
        if phys < self.base || phys - self.base + buf.len() as u64 > self.bytes.len() as u64 {
            return false;
        }
        let at = (phys - self.base) as usize;
        let n = buf.len();
        buf.copy_from_slice(&self.bytes[at..at + n]);
        true
    }

    fn page_written(&self, phys: u64) -> Option<bool> {
        if !self.tracks {
            return None;
        }
        Some(self.written.contains(&(phys & !0xFFF)))
    }
}

struct Shared(Mutex<Vec<u8>>);

impl FbSource for Shared {
    fn read(&self, phys: u64, buf: &mut Vec<u8>) -> bool {
        let bytes = self.0.lock().unwrap();
        let at = phys as usize;
        let n = buf.len();
        if at + n > bytes.len() {
            return false;
        }
        buf.copy_from_slice(&bytes[at..at + n]);
        true
    }

    fn page_written(&self, _phys: u64) -> Option<bool> {
        Some(true)
    }
}

fn gpa(at: usize, take: usize, addr: u64) -> PushRun {
    PushRun { src: PushSrc::Gpa(addr), at, take }
}

fn fb(at: usize, take: usize, phys: u64, va: u64) -> PushRun {
    PushRun { src: PushSrc::Fb { phys, va }, at, take }
}

fn none() -> Option<&'static mut Store> {
    None
}

#[test]
fn guest_runs_land_at_their_offsets_and_the_rest_is_zero() {
    let plan = RingPlan { runs: vec![gpa(0, 2, 0x1000), gpa(4, 2, 0x2000)], len: 8 };
    let guest: Vec<GuestRead> = vec![Ok(vec![1, 2]), Ok(vec![3, 4])];
    assert_eq!(fetch_ring_bytes(&plan, &guest, none()), Ok(vec![1, 2, 0, 0, 3, 4, 0, 0]));
}

#[test]
fn a_refused_guest_read_keeps_its_name() {
    let plan = RingPlan { runs: vec![gpa(0, 2, 0x1000), gpa(2, 2, 0x2000)], len: 4 };
    let non_ram: Vec<GuestRead> = vec![Ok(vec![1, 2]), Err(GuestReadError::NonRamGpa { gpa: 0x2000 })];
    assert_eq!(
        fetch_ring_bytes(&plan, &non_ram, none()),
        Err(FwdFault::NonRamGpa { gpa: 0x2000 })
    );
    let bad: Vec<GuestRead> = vec![Err(GuestReadError::BadGpa { gpa: 0x1800 }), Ok(vec![3, 4])];
    assert_eq!(fetch_ring_bytes(&plan, &bad, none()), Err(FwdFault::GpaRead { gpa: 0x1800 }));
    let other: Vec<GuestRead> = vec![Ok(vec![1, 2]), Err(GuestReadError::Other)];
    assert_eq!(fetch_ring_bytes(&plan, &other, none()), Err(FwdFault::GpaRead { gpa: 0x2000 }));
}

#[test]
fn a_read_refusal_maps_one_for_one() {
    assert_eq!(
        guest_read_fault(GuestReadError::NonRamGpa { gpa: 7 }, 9),
        FwdFault::NonRamGpa { gpa: 7 }
    );
    assert_eq!(guest_read_fault(GuestReadError::BadGpa { gpa: 7 }, 9), FwdFault::GpaRead { gpa: 7 });
    assert_eq!(guest_read_fault(GuestReadError::Other, 9), FwdFault::GpaRead { gpa: 9 });
}

#[test]
fn a_framebuffer_run_with_no_store_names_the_guests_address() {
    let plan = RingPlan { runs: vec![gpa(0, 2, 0x1000), fb(2, 2, 0x5000, 0x7_0002)], len: 4 };
    let guest: Vec<GuestRead> = vec![Ok(vec![1, 2]), Ok(Vec::new())];
    assert_eq!(
        fetch_ring_bytes(&plan, &guest, none()),
        Err(FwdFault::PushbufferAperture { va: 0x7_0002, aperture: Aperture::Vidmem })
    );
}

#[test]
fn a_framebuffer_run_is_read_from_the_store() {
    let plan = RingPlan { runs: vec![gpa(0, 2, 0x1000), fb(2, 3, 0x5001, 0x7_0002)], len: 6 };
    let guest: Vec<GuestRead> = vec![Ok(vec![1, 2]), Ok(Vec::new())];
    let mut store = Store::new(0x5000, vec![10, 11, 12, 13, 14, 15]);
    assert_eq!(
        fetch_ring_bytes(&plan, &guest, Some(&mut store)),
        Ok(vec![1, 2, 11, 12, 13, 0])
    );
    assert_eq!(store.reads, 1);
}

#[test]
fn a_never_written_ring_page_is_refused_before_its_bytes_are_read() {
    let plan = RingPlan { runs: vec![fb(0, 4, 0x9000, 0x7_0000)], len: 4 };
    let guest: Vec<GuestRead> = vec![Ok(Vec::new())];
    let mut store = Store::new(0x9000, vec![0; 4]);
    store.written.clear();
    assert_eq!(
        fetch_ring_bytes(&plan, &guest, Some(&mut store)),
        Err(FwdFault::RingFbNeverWritten { va: 0x7_0000, phys: 0x9000 })
    );
    assert_eq!(store.reads, 0);
    // A store that cannot tell is unmeasured, not a no: the bytes are read.
    store.tracks = false;
    assert_eq!(fetch_ring_bytes(&plan, &guest, Some(&mut store)), Ok(vec![0, 0, 0, 0]));
}

#[test]
fn a_store_that_does_not_back_the_run_refuses_by_aperture() {
    let plan = RingPlan { runs: vec![fb(0, 4, 0x5004, 0x7_0000)], len: 4 };
    let guest: Vec<GuestRead> = vec![Ok(Vec::new())];
    let mut store = Store::new(0x5000, vec![1; 6]);
    assert_eq!(
        fetch_ring_bytes(&plan, &guest, Some(&mut store)),
        Err(FwdFault::PushbufferAperture { va: 0x7_0000, aperture: Aperture::Vidmem })
    );
}

#[test]
fn a_pushbuffer_is_read_range_by_range() {
    let plan = PushPlan {
        ranges: vec![
            PlannedRange { len: 2, runs: vec![gpa(0, 2, 0x1000)] },
            PlannedRange { len: 3, runs: vec![gpa(0, 1, 0x2000), fb(1, 2, 0x9000, 0x7_0001)] },
        ],
    };
    let guest: Vec<Vec<GuestRead>> = vec![vec![Ok(vec![5, 6])], vec![Ok(vec![7]), Ok(Vec::new())]];
    // No residency gate on a pushbuffer: an unwritten page is read as it is.
    let mut store = Store::new(0x9000, vec![8, 9]);
    store.written.clear();
    let bytes = fetch_pushbuffer(&plan, &guest, Some(&mut store)).unwrap();
    assert_eq!(bytes.ranges, vec![vec![5, 6], vec![7, 8, 9]]);
}

#[test]
fn a_pushbuffer_stops_at_the_first_range_that_refuses() {
    let plan = PushPlan {
        ranges: vec![
            PlannedRange { len: 2, runs: vec![gpa(0, 2, 0x1000)] },
            PlannedRange { len: 2, runs: vec![fb(0, 2, 0x9000, 0x7_0000)] },
            PlannedRange { len: 1, runs: vec![gpa(0, 1, 0x3000)] },
        ],
    };
    let guest: Vec<Vec<GuestRead>> =
        vec![vec![Ok(vec![5, 6])], vec![Ok(Vec::new())], vec![Err(GuestReadError::Other)]];
    assert_eq!(
        fetch_pushbuffer(&plan, &guest, none()),
        Err(FwdFault::PushbufferAperture { va: 0x7_0000, aperture: Aperture::Vidmem })
    );
    let empty = PushPlan { ranges: Vec::new() };
    assert_eq!(fetch_pushbuffer(&empty, &Vec::new(), none()).unwrap().ranges, Vec::<Vec<u8>>::new());
}

#[test]
fn a_shared_source_serves_one_read_through_its_borrow() {
    let shared = Shared(Mutex::new(vec![0, 1, 2, 3, 4, 5, 6, 7]));
    let mut borrow = FbSourceRef(&shared);
    let plan = RingPlan { runs: vec![fb(0, 4, 2, 0x7_0000)], len: 4 };
    let guest: Vec<GuestRead> = vec![Ok(Vec::new())];
    assert_eq!(fetch_ring_bytes(&plan, &guest, Some(&mut borrow)), Ok(vec![2, 3, 4, 5]));
    assert_eq!(borrow.page_written(0), Some(true));
}

#[test]
fn a_plan_that_overruns_its_buffer_is_caught() {
    assert!(check_runs_fit(&vec![gpa(0, 2, 0), gpa(2, 2, 0)], 4));
    assert!(!check_runs_fit(&vec![gpa(0, 2, 0), gpa(3, 2, 0)], 4));
    assert!(!check_runs_fit(&vec![gpa(usize::MAX, 2, 0)], 4));
    assert!(check_runs_fit(&Vec::new(), 0));
}
