pub mod chain_type;
pub mod numbers;
pub mod search;
pub mod config;
pub mod chain_service;
pub mod model;
pub mod node_service;
pub mod proxy_request_service;
pub mod metrics;
