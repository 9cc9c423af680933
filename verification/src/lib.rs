pub mod text;
pub mod shell;
pub mod numbers;
pub mod ports;
pub mod order;
pub mod targets;
pub mod assess;
pub mod signals;
pub mod report;
pub mod scan;
pub mod cyclonedx;
pub mod inventory;
pub mod dashboard;
pub mod cli;
pub mod serve;
