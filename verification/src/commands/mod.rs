pub mod activity;
pub mod board;
pub mod info;
pub mod list;
pub mod sync;
pub mod annotate;
pub mod import;
pub mod init;
pub mod reset;
pub mod modify;
pub mod unionfind;
pub mod plan;
pub mod add;
