//! From the init specifiers of FPP models to the C++ code generated for them.
//!
//! An init specifier (`phase <Phase> """ code """`) attaches C++ code to a component
//! instance. The code generator splices the code into the generated files of every topology
//! that includes the instance, and leaves no marker that points back at the model. This
//! library bridges the two for a language server. It tells whether the cursor is on an init
//! specifier ([`index`]), which topologies include its instance ([`topologies`]), where in a
//! build cache their generated files lie ([`search`], [`locations`]), at which line of such
//! a file the code stands ([`snippet`]), and what to show when hovering over the specifier
//! ([`hover`]). [`resolve`] puts these together.
//!
//! The library does no input or output. A search of the file system is a value that says
//! what it wants to know next and goes on with the answer ([`files`]). Paths are those of
//! Unix-like systems ([`path`]).

pub mod files;
pub mod hover;
pub mod index;
pub mod locations;
pub mod names;
pub mod path;
pub mod phases;
pub mod resolve;
pub mod search;
pub mod snippet;
pub mod targets;
pub mod text;
pub mod topologies;
pub mod uri;
