pub mod addr;
pub mod addr_laws;
pub mod command;
pub mod digits;
pub mod dns;
pub mod files;
pub mod logdir;
pub mod platform;
pub mod ratelimit;
pub mod ratelimit_laws;
pub mod text;
pub mod text_laws;
pub mod text_lemmas;
pub mod tun;
pub mod update;
