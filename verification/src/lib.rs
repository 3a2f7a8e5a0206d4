//! A small actor runtime in the style of skynet: services own message
//! queues, a global queue schedules the services that have work, and a
//! socket thread turns network events into messages.

pub mod rsknet_global;
pub mod rsknet_handle;
pub mod rsknet_mq;
pub mod rsknet_server;
pub mod rsknet_socket;
pub mod rsknet_text;
pub mod rsknet_monitor;
pub mod service_snlua;
