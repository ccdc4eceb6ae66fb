//! Messages of a small line-oriented, HTTP-like protocol: the model of a
//! request and of a response, the parser that reads a request from text and
//! the formatter that writes either back, each with a proved contract.

pub mod html;
pub mod http;
pub mod laws;
pub mod site;
pub mod string_map;
pub mod text;
pub mod text_laws;
pub mod wire;
