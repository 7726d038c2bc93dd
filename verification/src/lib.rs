pub mod domain;
pub mod item;
pub mod world;
pub mod capabilities;
pub mod memory;
pub mod clock;
pub mod decimal;
pub mod json;
pub mod config;
pub mod rows;
pub mod hn;
pub mod rank_delta;
pub mod use_cases;
pub mod cron;
pub mod greeting;
