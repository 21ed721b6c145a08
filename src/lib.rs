//! A scrolling, zoomable chart of daily closing prices: reading the day
//! records into a series, the viewport over it, the frame drawn each round,
//! and the decisions of the event loop.

pub mod decimal;
pub mod series;
pub mod order;
pub mod viewport;
pub mod frame;
pub mod session;
