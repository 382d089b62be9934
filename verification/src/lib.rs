//! Verified core of the Cognitora inference stack.
pub mod agent;
pub mod chat_template;
pub mod claims;
pub mod cluster;
pub mod cordon;
pub mod ctl;
pub mod digest;
pub mod error;
pub mod federation;
pub mod health;
pub mod infer;
pub mod keys;
pub mod kv;
pub mod kv_epoch;
pub mod kvcached;
pub mod layers;
pub mod metrics;
pub mod models;
pub mod order;
pub mod pipeline;
pub mod pki;
pub mod planner;
pub mod render;
pub mod scheduler;
pub mod spawn;
pub mod sse;
pub mod stop;
pub mod supervisor;
pub mod tally;
pub mod text;
pub mod tokenizer;
pub mod vllm;
pub mod wire;
