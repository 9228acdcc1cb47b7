//! A MongoDB-style document database over SQLite: JSON documents, Mongo
//! filters and update operators, aggregation pipelines, indexes, full-text
//! search and JSON Schema validation.

use vstd::prelude::*;

pub mod aggregate;
pub mod bson;
pub mod catalog;
pub mod cursor;
pub mod error;
pub mod expr;
pub mod fts;
pub mod index;
pub mod io;
pub mod json;
pub mod matcher;
pub mod ops;
pub mod path;
pub mod query;
pub mod shell;
pub mod sql_params;
pub mod statements;
pub mod typed;
pub mod update;
pub mod util;
pub mod validation;
pub mod value;

pub use cursor::{ExplainPlan, ExplainRow};
pub use error::{Error, ErrorKind};
pub use index::{IndexInfo, IndexSpec};
pub use io::Format;
pub use json::Json;
pub use ops::{
    BulkWriteOptions, BulkWriteResult, FindOneAndDeleteOptions, FindOneAndUpdateOptions, FindOptions,
    ReturnDocument, UpdateOptions, UpdateResult, WriteOp,
};
pub use typed::Document;
pub use validation::{ValidationLevel, Validator};

