pub mod local_version;
pub mod paths;
pub mod remote;
pub mod settings;
