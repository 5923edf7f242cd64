//! Optimisation of lowered programs.

pub mod arrivals;
pub mod blocks_arrive;
pub mod checks;
pub mod consts;
pub mod control_flow;
pub mod copies;
pub mod facts;
pub mod facts_arrive;
pub mod facts_laws;
pub mod guards;
pub mod guards_arrive;
pub mod inline;
pub mod inline_laws;
pub mod kernels;
pub mod lookahead;
pub mod loops_arrive;
pub mod loops;
pub mod machine;
pub mod moves;
pub mod operand_laws;
pub mod peephole;
pub mod pipeline;
pub mod pipeline_traces;
pub mod prints;
pub mod probe_laws;
pub mod probes;
pub mod reach_laws;
pub mod reaching;
pub mod ready;
pub mod request_laws;
pub mod rewrite_traces;
pub mod search;
pub mod simplify_laws;
pub mod simplify_traces;
pub mod slots;
pub mod slots_laws;
pub mod specialize;
pub mod stacks;
pub mod straight_laws;
pub mod tail_laws;
pub mod targets;
pub mod traces;
pub mod unroll;
pub mod unroll_traces;
pub mod uses;
pub mod version_traces;
pub mod versions;
pub mod ways;
