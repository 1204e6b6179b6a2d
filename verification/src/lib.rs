use vstd::prelude::*;

pub mod fault;
pub mod wire;
pub mod ring;
pub mod ram;
pub mod element;
pub mod fold;
pub mod roundtrip;
pub mod aperture;
pub mod replay;
pub mod boot;
pub mod ce;
pub mod routes;
pub mod partition;
pub mod forwarding;
pub mod table;
pub mod plans;
pub mod engine;
pub mod submit;
pub mod operands;
pub mod ptplan;
pub mod fbleaf;
pub mod spine;
pub mod fetch;
pub mod methods;
pub mod pushbuffer;

verus! {

} // verus!
