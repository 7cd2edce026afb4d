use vstd::prelude::*;

pub mod bits;
pub mod text;
pub mod chkgrid;
pub mod chkgrid_fields;
pub mod callsign;
pub mod tones;
pub mod filtersfree;
pub mod dx_filter;
pub mod dx_context;
pub mod dx_report;
pub mod dx_foci;
pub mod dx_store;
pub mod hybrid;
pub mod hybrid_report;
pub mod passes;
pub mod chkfalse8;
pub mod ap_subpass;
pub mod ap_plan;
pub mod jtdx_state;
pub mod jtdx_calls;
pub mod ft8b_plan;
pub mod classify;
pub mod ft8_mod1;
pub mod signal_memory;
pub mod call_context;
pub mod wsjt_ap;
pub mod dx_matched;
pub mod dx_stack;
pub mod ldpc;
pub mod crc_laws;
pub mod ft8s_context;
pub mod indexx;
pub mod dx_deep;
pub mod jtdx_session;

verus! {

} // verus!
