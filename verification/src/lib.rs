pub mod dom;
pub mod extract;
pub mod markdown;
pub mod meta;
pub mod query;
pub mod stats;
pub mod text;
pub mod work;
