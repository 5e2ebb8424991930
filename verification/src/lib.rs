//! IEC 60870-5-104 protocol core: ASDU type catalogue, APCI/ASDU codec,
//! data point storage, the master link-layer state machine, the slave
//! station model and the request/response helpers of the two front ends.
#![allow(unused_imports)]

pub mod clock;
pub mod data_point;
pub mod decode;
pub mod frame;
pub mod laws;
pub mod log_entry;
pub mod master;
pub mod master_app;
pub mod parse;
pub mod protocol;
pub mod received;
pub mod slave;
pub mod slave_app;
pub mod slave_link;
pub mod text;
pub mod text_laws;
pub mod types;
pub mod update;
pub mod wire_laws;
