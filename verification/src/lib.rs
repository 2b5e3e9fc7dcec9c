//! Backfill of historical auction data: the codecs of identifiers and
//! amounts, the decoder of stored competition records, the rules that turn
//! one record into a normalized auction row or into corrected fees, and the
//! state machine of the batch walk that goes down the table of competitions.

pub mod byte_array;
pub mod database;
pub mod database_order_executions;
pub mod database_orders;
pub mod database_solver_competition;
pub mod decimal;
pub mod hex_codec;
pub mod json;
pub mod price_map;
pub mod record_decoder;
pub mod run;
pub mod solver_competition_api;
pub mod u256;
pub mod walk;
