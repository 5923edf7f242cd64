//! What a program means: its index, its checks and its lowering.

pub mod assignments;
pub mod building_laws;
pub mod collect;
pub mod containers;
pub mod dispatch;
pub mod entries;
pub mod environment;
pub mod evaluate;
pub mod execute;
pub mod execute_laws;
pub mod expressions;
pub mod flow;
pub mod generics;
pub mod generics_laws;
pub mod impls;
pub mod index;
pub mod known;
pub mod layouts;
pub mod layouts_laws;
pub mod loop_laws;
pub mod lower;
pub mod matching;
pub mod matching_laws;
pub mod methods;
pub mod names;
pub mod operations;
pub mod order;
pub mod outputs;
pub mod program;
pub mod program_laws;
pub mod purity;
pub mod qualified;
pub mod receivers;
pub mod resolved_laws;
pub mod reduction_laws;
pub mod reductions;
pub mod running_laws;
pub mod scope_laws;
pub mod self_laws;
pub mod self_type;
pub mod spans;
pub mod state;
pub mod statements;
pub mod tidy_laws;
pub mod types;
pub mod values;
pub mod variants;
