//! Rule bookkeeping and decision logic of an SSH port-forward manager.
pub mod cmd;
pub mod order;
pub mod text;
pub mod services;
pub mod utils;
pub mod ssh;
pub mod stop_run;
pub mod start_run;
pub mod interaction;
pub mod gui;
pub mod cli;
