pub mod assembly;
pub mod build_plan;
pub mod constructor;
pub mod descriptor;
pub mod facts;
pub mod launch_law;
pub mod mir;
pub mod order;
pub mod prefill;
pub mod prefill_graph;
pub mod prefill_program;
pub mod prefill_weights;
pub mod program;
pub mod projection;
pub mod run;
pub mod schema;
pub mod section;
pub mod training;
pub mod training_laws;
pub mod wire;
