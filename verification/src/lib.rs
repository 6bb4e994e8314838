//! Verified core of a media downloader: the hole-punched UDP file transfer,
//! the browser's native messaging host, the course archive helpers and the
//! webview result channel.

pub mod bytes;
pub mod conversation;
pub mod course;
pub mod files;
pub mod json;
pub mod native_host;
pub mod packet;
pub mod punch;
pub mod receive_session;
pub mod receiver;
pub mod send_session;
pub mod sender;
pub mod text;
pub mod transfer;
pub mod webview;
