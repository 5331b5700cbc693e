pub mod device_access;
pub mod hostmounts;
pub mod probe;
pub mod text;
