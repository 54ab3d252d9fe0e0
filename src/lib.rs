//! Rewrites scripts with embedded markup into plain script text.
//!
//! The parser is a collaborator: it hands over the source and, for every
//! markup element, the byte spans of its parts ([`jsx::Element`]). The
//! collector ([`jsx`]) turns each element into rewrite operations on spans of
//! the source as given, and the assembler ([`patch`]) orders them and replays
//! them, resolving nested elements from the inside out. [`rewrite::rewrite`]
//! runs both and checks the spans on the way.
//!
//! Around that core stand the small pieces of the playground service that are
//! plain computation: template directives ([`html`], [`page`]), store keys
//! ([`key`]), host matching ([`http`]), error pages ([`http_error`]), asset
//! addresses ([`cdn`]), session data ([`state`]), deployment commands and
//! accounts ([`deploy`], [`ssh`]) and text positions ([`position`]).

pub mod cdn;
pub mod deploy;
pub mod html;
pub mod http;
pub mod http_error;
pub mod jsx;
pub mod key;
pub mod op;
pub mod page;
pub mod patch;
pub mod position;
pub mod rewrite;
pub mod span;
pub mod ssh;
pub mod state;
pub mod text;
