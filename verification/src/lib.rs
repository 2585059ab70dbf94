pub mod cryptor;
pub mod hash;
pub mod password;
pub mod report;
pub mod walk;
