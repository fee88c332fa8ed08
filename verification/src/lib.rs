//! A small personal-finance core: named funds, each holding a running
//! balance and a savings goal, kept in a manager that enforces unique
//! names and owns the line-oriented `name:amount:goal` text format.

pub mod digits;
pub mod fund;
pub mod manager;
pub mod run;
pub mod text;

pub use fund::display_dollars;
pub use fund::Fund;
pub use manager::DuplicateFundError;
pub use manager::FundManager;
pub use manager::FundManagerError;
pub use manager::FundNotFoundError;
pub use manager::IoError;
pub use manager::ParseError;
pub use run::run;
pub use run::Config;
