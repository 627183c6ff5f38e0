pub mod env;
pub mod run;
pub mod list;
pub mod doctor;
pub mod edit;
pub mod add;
pub mod show;
pub mod init;
pub mod which;
