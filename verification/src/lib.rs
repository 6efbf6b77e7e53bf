//! Verified core of the InferX HTTP gateway.
pub mod text;
pub mod json;
pub mod secret;
pub mod external_endpoint;
pub mod http_gw_external;
pub mod log_admin;
pub mod skill_chain;
pub mod skill_trace_sse;
pub mod mcp_stream_server;
pub mod external_ceiling;
pub mod func_agent_mgr;
pub mod req_token;
pub mod session;
pub mod session_store;
pub mod session_turn;
pub mod metrics;
pub mod scheduler_client;
pub mod http_gateway;
