//! Typing practice over e-books.
//!
//! A package is opened from the bytes of its container ([`package`]),
//! which gives its metadata, its manifest and spine ([`epub`]) and its
//! table of contents ([`toc`]). A chapter is read as a document
//! ([`xml`]), its style sheets are reduced to the few declarations that
//! matter ([`css`]), and the document is flattened into blocks of text
//! with their styles ([`flatten`], [`style`]). The blocks make the
//! canonical text ([`canon`]) that a typing session is played against
//! ([`backend`]), keystroke by keystroke, in positions that count bytes
//! and characters alike ([`position`]).

pub mod position;
pub mod text;
pub mod style;
pub mod content;
pub mod canon;
pub mod backend;
pub mod xml;
pub mod xml_parse;
pub mod css;
pub mod flatten;
pub mod link;
pub mod archive;
pub mod author;
pub mod metadata;
pub mod epub;
pub mod toc;
pub mod package;
pub mod directory;
