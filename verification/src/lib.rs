pub mod av3a;
pub mod binary32;
pub mod database;
pub mod media;
pub mod syscalls;
pub mod text;
pub mod x11;
