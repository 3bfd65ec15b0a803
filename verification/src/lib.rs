pub mod bitbucket;
pub mod browser;
pub mod calendar;
pub mod comments;
pub mod forge;
pub mod json;
pub mod launch;
pub mod markdown;
pub mod models;
pub mod text;
