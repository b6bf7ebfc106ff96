//! Bringing a saved session back.
pub mod command;
pub mod command_laws;
pub mod converge;
pub mod converge_laws;
pub mod late;
pub mod launch;
pub mod launch_cmd;
pub mod launch_laws;
pub mod ledger_laws;
pub mod laws;
pub mod lua_laws;
pub mod machine_laws;
pub mod plan_laws;
pub mod plans;
pub mod pool;
pub mod progress;
pub mod request_laws;
pub mod run;
pub mod run_laws;
pub mod turn;
