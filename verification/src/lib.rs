pub mod answer;
pub mod auth;
pub mod bytes;
pub mod commands;
pub mod credentials;
pub mod debug;
pub mod error;
pub mod executor;
pub mod http;
pub mod json;
pub mod listing;
pub mod output;
pub mod path_filter;
pub mod paths;
pub mod patterns;
pub mod protobuf;
pub mod protocol;
pub mod repo;
pub mod response;
pub mod rg;
pub mod search;
pub mod settings;
pub mod sorting;
pub mod text;
pub mod tool_schema;
pub mod tools;
pub mod turns;
pub mod types;
pub mod walk;
