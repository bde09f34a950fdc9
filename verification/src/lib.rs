pub mod broker;
pub mod network;
pub mod packet;
pub mod snowflake;
