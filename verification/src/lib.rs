//! Encoding of measurements into line protocol, and building of pipeline
//! queries.

pub mod client;
pub mod convert;
pub mod entries;
pub mod field;
pub mod lines;
pub mod measurement;
pub mod order;
pub mod query;
pub mod response;
pub mod stage;
pub mod tag;
pub mod text;

pub use entries::Entries;
pub use field::{Field, FloatText};
pub use measurement::{Measurement, MeasurementBuilder, MeasurementBuilderError};
pub use query::Query;
pub use stage::{GroupMode, OnEmpty, Selection, Stage, TypeValue};
pub use tag::TagValue;
