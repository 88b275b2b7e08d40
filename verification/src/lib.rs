//! Serialization of in-memory data to XML text.
//!
//! An [`XMLElement`] is a named node with optional attributes, optional child
//! elements and optional text. It is built either call by call or by chaining,
//! and rendered compactly on one line or pretty-printed with a caller-chosen
//! newline and indentation:
//!
//! ```text
//! let mut ele = XMLElement::new("person");
//! ele.add_attr("age", 28);
//! ele.set_text("John Doe");
//! let sub_ele = XMLElement::new("person").attr("age", 4).text("Jane Doe");
//! ele.add_element(sub_ele);
//! // <person age="28"><person age="4">Jane Doe</person>John Doe</person>
//! ele.to_string();
//! ele.to_string_pretty("\n", "\t");
//! ```
//!
//! The field-role compiler spares writing such calls by hand for a record: it
//! reads which role each field of the record is annotated with and emits the
//! routine that converts a value of the record to an element.
//!
//! Every executable function carries a contract over the mathematical view of
//! its arguments: a string is the sequence of its characters and an element is
//! an [`ElementView`], so the rendered text of a tree is a function of the
//! tree that can be reasoned about without running anything.
//!
//! - [`element`]: the tree and the operations that build it;
//! - [`render`]: the compact and the pretty rendering, and what holds of them;
//! - [`text`]: escaping, the CDATA section, lines;
//! - [`schema`]: the description of an annotated record;
//! - [`roles`]: which fields have which role, and which annotations are at
//!   fault;
//! - [`compiler`]: from the description of a record to a conversion routine;
//! - [`conversion`]: running a conversion routine on the values of a record;
//! - [`chars`]: strings as vectors of characters.

pub mod chars;
pub mod compiler;
pub mod conversion;
pub mod element;
pub mod render;
pub mod roles;
pub mod schema;
pub mod text;

pub use compiler::xml_element;
pub use element::{AttrView, ElementView, XMLAttr, XMLElement};
pub use text::split_cdata;
