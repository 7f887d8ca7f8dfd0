pub mod binance;
pub mod bybit;
pub mod formatter;
pub mod okx;
