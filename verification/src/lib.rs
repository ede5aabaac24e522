//! Extraction of scalar values from JSON text by a path of object-key and
//! array-index accessors, applied row by row over a columnar batch.
//!
//! The navigator walks the raw bytes of a JSON document lazily: it skips
//! sibling values structurally without decoding them and stops at the value
//! the path addresses. A family of coercers then decodes that value as a
//! requested scalar type, or reports it absent. A batch invoker applies the
//! same machinery to every row of a nullable column, mapping absence and null
//! inputs to null output slots and reserving hard failure for structurally
//! invalid path arguments.

pub mod scan;
pub mod nav;
pub mod coerce;
pub mod path;
pub mod batch;
pub mod reparse;
