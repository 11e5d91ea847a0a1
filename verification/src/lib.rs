//! Order-book arithmetic and bookkeeping for a pair-trading system.
pub mod decimal;
pub mod model;
pub mod order_book;
pub mod book_delta;
pub mod events;
pub mod pair_deal;
pub mod storage;
pub mod trading;
pub mod text;
pub mod stats;
pub mod viewer;
pub mod clock;
pub mod charts;
pub mod feeds;
pub mod perfect_trader;
pub mod market_events;
pub mod quotes;
pub mod alor;
pub mod stored_books;
pub mod walk_forward;
