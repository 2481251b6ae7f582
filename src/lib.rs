//! A line-oriented broadcast chat core: the registry of connected clients,
//! the fan-out bus with bounded per-subscriber queues, the command
//! interpreter and the per-connection session state machine. Beside it stand
//! a few small text tools: a markdown to HTML converter, a to-do list, a
//! comma-separated table reader, a generic matrix type, and the option
//! records of a weather lookup and a URL fetcher.

pub mod bus;
pub mod command;
pub mod csv;
pub mod fetcher;
pub mod html;
pub mod markdown;
pub mod matrix;
pub mod registry;
pub mod session;
pub mod text;
pub mod todo;
pub mod weather;

pub use html::{
    group_list, parse_header, parse_inner, parse_list, parse_paragraph, HtmlRenderer, Renderer,
};
pub use markdown::{parse_md, Config, MarkdownElement, MarkdownError};
