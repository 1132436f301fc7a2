//! Incremental crawling of episodic comics: extraction of episode listings from
//! publisher pages, and the decisions of a crawl that resumes where the store
//! left off.
pub mod crawl;
pub mod error;
pub mod html;
pub mod lezhin;
pub mod model;
pub mod naver;
pub mod run;
pub mod text;
pub mod util;
