pub mod value;
pub mod registry;
pub mod executor;
pub mod scalar;
pub mod coercion;
