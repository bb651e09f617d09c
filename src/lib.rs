pub mod assoc;
pub mod copy_row;
pub mod order;
pub mod row_parser;
pub mod state;
pub mod strategies;
pub mod strategy_errors;
pub mod strategy_structs;
pub mod types;
