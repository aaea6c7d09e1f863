//! Request handling of the OpenAI- and Ollama-compatible HTTP server:
//! the decisions it makes about messages, tools, limits and replies.

pub mod auth;
pub mod ollama;
pub mod openai;
pub mod tool_calls;
