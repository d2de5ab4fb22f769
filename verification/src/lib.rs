pub mod governance;
pub mod ids;
pub mod investment;
pub mod ordered;
pub mod property;
pub mod records;
pub mod row;
pub mod stable;
pub mod sums;
pub mod text;
pub mod user;
