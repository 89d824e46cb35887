//! Streaming per-location statistics: a table of running minimum, maximum and
//! mean per key, drained once into an ordered sequence.

pub mod rounding;
pub mod entry;
pub mod ordering;
pub mod table;
pub mod measurement;
pub mod text;

pub use entry::CityEntry;
pub use measurement::parse_measurement;
pub use ordering::KeyOrder;
pub use table::CitiesWeather;
