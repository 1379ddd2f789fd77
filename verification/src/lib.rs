pub mod text;
pub mod json;
pub mod paths;
pub mod protocol;
pub mod rpc;
pub mod catalog;
pub mod config;
pub mod hub;
pub mod web;
