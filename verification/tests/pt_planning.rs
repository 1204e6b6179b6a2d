//! Planning page-table decodes: the guest's writes are drained into tasks, an unknown page
//! is deferred, and a sweep is planned for exactly the address spaces whose picture is not
//! current.

use lib::aperture::Aperture;
use lib::ptplan::{learn_pt_meta, plan_pt_decode, plan_pt_sweep, PtDecodeTask, PtPage, PtState, SweepState, MAX_PT_META};
use lib::routes::SweepReason;

fn state(pdb: u64, pt_pages: Vec<u64>, sweep: SweepState) -> PtState {
    PtState {
        gpu: 0,
        pdb,
        pt_pages,
        pt_meta: vec![(0x7000, PtPage { phys: 0x7000, aperture: Aperture::Vidmem, level: 2, vabase: 0x20_0000 })],
        witnessed: vec![0x7000],
        sweep,
    }
}

fn clean(sweeps: u64) -> SweepState {
    SweepState { sweeps, truncated: false, dirty: false }
}

#[test]
fn dirtied_pages_are_drained_into_tasks_and_unknown_ones_deferred() {
    let mut states = vec![state(0x4_0123, vec![0x4_0000, 0x7000, 0x9000], clean(1)), state(0x8_0000, vec![0x9000], clean(1))];
    let plan = plan_pt_decode(&mut states);
    assert_eq!(
        plan.tasks,
        vec![
            PtDecodeTask { gpu: 0, pdb: 0x4_0123, page: PtPage { phys: 0x4_0000, aperture: Aperture::Vidmem, level: 0, vabase: 0 } },
            PtDecodeTask { gpu: 0, pdb: 0x4_0123, page: PtPage { phys: 0x7000, aperture: Aperture::Vidmem, level: 2, vabase: 0x20_0000 } },
        ]
    );
    assert_eq!(plan.deferred, vec![(0, 0x4_0123, 0x9000), (0, 0x8_0000, 0x9000)]);
    assert!(states[0].pt_pages.is_empty() && states[1].pt_pages.is_empty());
    assert_eq!(states[0].witnessed, vec![0x7000, 0x4_0000, 0x9000]);
    assert!(states[0].sweep.dirty);
    assert!(!states[1].sweep.dirty);
    let again = plan_pt_decode(&mut states);
    assert!(again.tasks.is_empty() && again.deferred.is_empty());
}

#[test]
fn a_sweep_is_planned_only_where_the_picture_is_not_current() {
    let mut states = vec![
        state(0x1000, Vec::new(), clean(0)),
        state(0x2000, Vec::new(), SweepState { sweeps: 3, truncated: true, dirty: true }),
        state(0x3000, vec![0x7000], clean(2)),
        state(0x4000, vec![0x9000], clean(2)),
    ];
    let plan = plan_pt_sweep(&mut states);
    assert_eq!(plan.reasons, vec![SweepReason::NeverSwept, SweepReason::Truncated, SweepReason::Dirty]);
    assert_eq!(plan.skipped, 1);
    assert_eq!(plan.tasks.len(), 3);
    assert_eq!(plan.tasks[2].page, PtPage { phys: 0x3000, aperture: Aperture::Vidmem, level: 0, vabase: 0 });
    assert!(states[2].sweep.dirty);
    assert!(!states[3].sweep.dirty);
    assert_eq!(states[3].pt_pages, vec![0x9000]);
}

fn page(phys: u64, level: u32) -> PtPage {
    PtPage { phys, aperture: Aperture::Vidmem, level, vabase: phys << 8 }
}

#[test]
fn visited_pages_are_learned_forward_except_the_root_and_the_known() {
    let mut st = state(0x4_0123, Vec::new(), clean(1));
    let learned = learn_pt_meta(&mut st, &vec![page(0x4_0000, 0), page(0x7000, 3), page(0x9000, 1), page(0x9000, 2)]);
    assert_eq!(learned.learned, 1);
    assert_eq!(learned.refused, 0);
    assert_eq!(learned.pages, vec![0x9000]);
    // The known page keeps its first answer; the new one is remembered once.
    assert_eq!(
        st.pt_meta,
        vec![
            (0x7000, PtPage { phys: 0x7000, aperture: Aperture::Vidmem, level: 2, vabase: 0x20_0000 }),
            (0x9000, page(0x9000, 1)),
        ]
    );
    assert!(st.pt_pages.is_empty());
}

#[test]
fn past_the_bound_a_new_page_is_refused_and_counted() {
    let mut st = state(0x4_0123, Vec::new(), clean(1));
    st.pt_meta = (0..MAX_PT_META as u64).map(|k| (0x10_0000 + k * 0x1000, page(0x10_0000 + k * 0x1000, 1))).collect();
    let learned = learn_pt_meta(&mut st, &vec![page(0x7000, 1), page(0x10_0000, 2)]);
    assert_eq!(learned.learned, 0);
    assert_eq!(learned.refused, 1);
    assert!(learned.pages.is_empty());
    assert_eq!(st.pt_meta.len(), MAX_PT_META);
}
