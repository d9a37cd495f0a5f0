//! Server-driven UI: the reconciliation engine and the per-connection
//! session protocol.
//!
//! The server holds one UI tree for each connected client. When the tree
//! changes, the client gets the patches that lead from the tree it shows to
//! the new one, and it reports what the user does as a stream of events.
//!
//! - [`gui`] and [`types`] hold the data: trees, patches and events.
//! - [`edit_distance`] finds the edit script between two lists, and
//!   [`replay`] says what a script does to a list.
//! - [`diff`] finds the patches between two trees, and [`apply`] says what
//!   patches do to a tree.
//! - [`session`] remembers what a client shows, [`transport`] decides for
//!   one connection, and [`monolith`] hands the events of all sessions to
//!   the application.
//! - [`match_routes`] matches route patterns, and [`codegen`] writes down
//!   JavaScript.

pub mod apply;
pub mod codegen;
pub mod diff;
pub mod edit_distance;
pub mod gui;
pub mod match_routes;
pub mod monolith;
pub mod replay;
pub mod session;
pub mod text;
pub mod transport;
pub mod types;

pub use crate::gui::Button;
pub use crate::gui::Checkbox;
pub use crate::gui::Item;
pub use crate::gui::Text;
pub use crate::gui::TextInput;
pub use crate::gui::View;
pub use crate::match_routes::does_route_match;
pub use crate::match_routes::find_matches;
pub use crate::monolith::Monolith;
pub use crate::monolith::MonolithBuilder;
pub use crate::types::AddBack;
pub use crate::types::AddFront;
pub use crate::types::ClientAction;
pub use crate::types::ClientEvent;
pub use crate::types::InsertAt;
pub use crate::types::ItemPath;
pub use crate::types::MsgFromClient;
pub use crate::types::OnClick;
pub use crate::types::OnKeyDown;
pub use crate::types::OnTextChanged;
pub use crate::types::ParametersChanged;
pub use crate::types::RemoveInx;
pub use crate::types::Replace;
