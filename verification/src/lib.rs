pub mod assoc;
pub mod client;
pub mod config;
pub mod connect;
pub mod direct_session;
pub mod dispatch;
pub mod encryption;
pub mod error;
pub mod expire;
#[allow(unused_imports)]
pub mod laws;
pub mod manager_connect;
pub mod manager_events;
pub mod manager_init;
pub mod metrics;
pub mod model;
pub mod network_view;
pub mod permit;
pub mod refresh;
pub mod registry;
pub mod requests;
pub mod routing_session;
pub mod session_control;
pub mod session_events;
pub mod session_guard;
pub mod session_initializer;
pub mod session_layer;
pub mod session_manager;
pub mod session_state;
pub mod tcp_registry;
pub mod text;
pub mod transport_layer;
pub mod virtual_layer;
