//! Core of an LLM inference engine: everything that can be stated and proved
//! over plain values. Floating-point numbers are carried as their IEEE 754 bit
//! patterns. Conversions, sums and products of patterns are exact up to one
//! rounding; the forward pass of the model belongs to the application.

pub mod text;

// numbers
pub mod bignat;
pub mod ieee;
pub mod float;
pub mod exact;
pub mod decimal;
pub mod shortest;
pub mod fixed;

// JSON and configuration
pub mod json;
pub mod json_laws;
pub mod config;
pub mod settings;

// model files
pub mod ggml;
pub mod value;
pub mod gguf;
pub mod gguf_laws;
pub mod dequant;
pub mod dequant_laws;
pub mod qwen2;
pub mod model_laws;
pub mod kv;

// text to tokens and back
pub mod pre;
pub mod tokenizer;
pub mod tokenizer_laws;
pub mod merge_laws;
pub mod chat;

// generation
pub mod sampling;
pub mod sampling_laws;
pub mod generate;

// server
pub mod http;
pub mod server;
pub mod request_laws;
pub mod server_laws;
