pub mod account;
pub mod bank;
pub mod constants;
pub mod counter;
pub mod kv;
pub mod linked_list;
pub mod math_vector;
pub mod matrices;
pub mod matrix;
pub mod money;
pub mod pets;
pub mod projection;
pub mod protocol;
pub mod ser_de;
pub mod session;
pub mod slices;
pub mod state;
pub mod storage;
pub mod sums;
