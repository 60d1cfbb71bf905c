//! Authorization of IPC commands by an access control list.
//!
//! A [`authority::RuntimeAuthority`] holds, per command, the entries that
//! allow it and the entries that deny it. Its `resolve_access` decides whether
//! a command may run for a window, a webview and the origin of the call.
//! [`laws`] states what that decision guarantees, and [`meaning`] and [`spelling`]
//! what each part of it comes to on texts.

pub mod acl;
pub mod authority;
pub mod label;
pub mod laws;
pub mod meaning;
pub mod remote;
pub mod spelling;
pub mod strategies;
pub mod text;
