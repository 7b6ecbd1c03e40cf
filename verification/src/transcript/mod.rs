//! Reading an agent's own record of a session.
pub mod assets;
pub mod attachment;
pub mod body;
pub mod command;
pub mod content;
pub mod grouped;
pub mod grouping;
pub mod index;
pub mod budget;
pub mod json;
pub mod mapper;
pub mod message;
pub mod operator;
pub mod origin;
pub mod question;
pub mod reader;
pub mod record;
pub mod results;
pub mod sent;
pub mod span;
pub mod speaker;
pub mod stats;
pub mod status;
pub mod summary;
pub mod tables;
pub mod tools;
pub mod turn;
pub mod turn_span;
pub mod usage;
