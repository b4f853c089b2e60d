//! Price-index series joined against a daily price series, with every
//! calendar, interpolation and slicing rule stated and proved.
pub mod btc_csv;
pub mod btc_price_history;
pub mod calendar;
pub mod cpi_ap;
pub mod cpi_query_engine;
pub mod data_sheet;
pub mod dated_series;
pub mod engine;
pub mod routes;
pub mod text;
