pub mod errors;
pub mod meta_command;
pub mod pager;
pub mod row;
pub mod statement;
pub mod table;
