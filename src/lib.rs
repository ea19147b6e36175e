//! Strips tracking parameters and resolves short-link redirections out of URLs.
//!
//! A [`UrlWasher`] washes one URL by the first rule of the table that applies to its
//! host and path; where a rule resolves a redirect over the network, the wash pauses
//! with the request to make and goes on with the answer. A [`TextWasher`] washes every
//! URL in free text and keeps the text's whitespace as it was.
pub mod cache;
pub mod clipboard;
pub mod config;
pub mod mixer;
pub mod redirect;
pub mod rules;
pub mod text_washer;
pub mod washer;
pub mod web_url;

pub use clipboard::ClipboardPoller;
pub use config::{RedirectWashPolicy, UrlWasherConfig};
pub use mixer::{AppError, UserError};
pub use redirect::{redirect_target, LocationHeader, RedirectReply, RedirectRequest, WashError};
pub use rules::{rule_set, DirtyUrlRule, WashingProgram};
pub use text_washer::{TextWash, TextWasher};
pub use washer::{PendingWash, UrlWasher, WashStep};
pub use web_url::WebUrl;
