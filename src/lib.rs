//! Core of a streaming dataflow engine: a validated graph of operators, the
//! bounded channels between them, the epoch barrier protocol that turns
//! independent sources into common commit points, and the failure slot that
//! keeps the first error of a run. Beside the core stand a few operators
//! built on it (projection, the MAX aggregate, time windows) and the
//! resolution of Postgres connection settings.
pub mod aggregation;
pub mod channel;
pub mod connection;
pub mod dag;
pub mod decimal;
pub mod epoch;
pub mod executor;
pub mod expression;
pub mod failure;
pub mod ordering;
pub mod projection;
pub mod schema;
pub mod topology;
pub mod types;
pub mod window;
