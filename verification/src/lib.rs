//! Decisions and text building behind the subreddit pages, feeds and
//! subscription cookies of a Reddit front end.
pub mod text;
pub mod cookies;
pub mod links;
pub mod markup;
pub mod feed;
pub mod order;
pub mod listing;
pub mod subscriptions;
pub mod pages;
