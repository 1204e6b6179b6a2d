//! Routing through the spine: a live key routes, a condemned one is refused by that name,
//! and every hop of an engine object's parent that declines says which.

use lib::engine::EngineObjectRoute;
use lib::forwarding::FwdFault;
use lib::plans::DoorbellRoute;
use lib::routes::EngineParentMiss;
use lib::spine::{
    route_doorbell, route_engine_object, route_engine_object_by_parent, route_pdb, ParentFacts,
    SpineView,
};

fn spine() -> SpineView {
    SpineView {
        by_vchid: vec![((0, 9), (1, 3))],
        condemned_vchid: vec![((0, 10), 0xc1d0_0001)],
        by_pdb: vec![((0, 0x4E60_0000), 1)],
        condemned_pdb: vec![((0, 0x5000_0000), 0xc1d0_0002)],
    }
}

#[test]
fn a_doorbell_routes_by_its_decoded_vchid() {
    let s = spine();
    assert_eq!(
        route_doorbell(&s, 0, 0xabcd, Some((9, 2))),
        Ok(DoorbellRoute { proc: 1, chan: 3, gpu: 0, vchid: 9, runlist: 2, token: 0xabcd })
    );
    assert_eq!(route_doorbell(&s, 0, 0xabcd, None), Err(FwdFault::MalformedToken { token: 0xabcd }));
    assert_eq!(route_doorbell(&s, 0, 1, Some((10, 0))), Err(FwdFault::Condemned { anchor: 0xc1d0_0001 }));
    assert_eq!(route_doorbell(&s, 1, 1, Some((9, 0))), Err(FwdFault::UnknownVchid { gpu: 1, vchid: 9 }));
}

#[test]
fn an_address_space_routes_to_its_process() {
    let s = spine();
    assert_eq!(route_pdb(&s, 0, 0x4E60_0000), Ok(1));
    assert_eq!(route_pdb(&s, 0, 0x5000_0000), Err(FwdFault::Condemned { anchor: 0xc1d0_0002 }));
    assert_eq!(route_pdb(&s, 0, 0x6000_0000), Err(FwdFault::UnknownPdb { gpu: 0, pdb: 0x6000_0000 }));
}

#[test]
fn an_engine_object_routes_by_its_channel_or_names_the_hop_that_declined() {
    let s = spine();
    let routed = EngineObjectRoute { proc: 1, chan: 3, gpu: 0, vchid: 9, engine: 7 };
    assert_eq!(route_engine_object(&s, 0, 9, 0xc86f, Some(7)), Ok(routed));
    assert_eq!(route_engine_object(&s, 0, 9, 0x0080, None), Err(FwdFault::NotAnEngine(0x0080)));
    let channel = ParentFacts::Channel { gpu: Some(0), vchid: Some(9) };
    assert_eq!(route_engine_object_by_parent(&s, 0xc1d0_0001, 0x5c00_0001, 0xc86f, Some(7), channel), Ok(routed));
    let miss = |why| FwdFault::EngineObjectParent { client: 0xc1d0_0001, object: 0x5c00_0001, why };
    assert_eq!(
        route_engine_object_by_parent(&s, 0xc1d0_0001, 0x5c00_0001, 0xc86f, Some(7), ParentFacts::NoNode),
        Err(miss(EngineParentMiss::NoNode))
    );
    assert_eq!(
        route_engine_object_by_parent(&s, 0xc1d0_0001, 0x5c00_0001, 0xc86f, Some(7), ParentFacts::NotAChannel),
        Err(miss(EngineParentMiss::NotAChannel))
    );
    assert_eq!(
        route_engine_object_by_parent(
            &s,
            0xc1d0_0001,
            0x5c00_0001,
            0xc86f,
            Some(7),
            ParentFacts::Channel { gpu: None, vchid: Some(9) }
        ),
        Err(miss(EngineParentMiss::NoTarget))
    );
    assert_eq!(
        route_engine_object_by_parent(
            &s,
            0xc1d0_0001,
            0x5c00_0001,
            0xc86f,
            Some(7),
            ParentFacts::Channel { gpu: Some(0), vchid: None }
        ),
        Err(miss(EngineParentMiss::UnnamedVchid))
    );
}
