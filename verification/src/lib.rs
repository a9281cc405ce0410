//! Verified core of RONCAD, a precision-first CAD application: identifiers,
//! selection state and how commands edit it, constraints and the sketch's
//! constraint table, project-file reference resolution, feature-to-profile
//! links and profile keys, dynamic numeric input and tool phases, document
//! bookkeeping, and the integer side of the sketch solver. Geometry that
//! computes with floating-point coordinates is not part of this crate.

pub mod body;
pub mod command;
pub mod constraint;
pub mod dispatch;
pub mod dispatcher;
pub mod document;
pub mod error;
pub mod event;
pub mod feature;
pub mod hover;
pub mod loading;
pub mod project;
pub mod ids;
pub mod naming;
pub mod rendering;
pub mod saving;
pub mod schema;
pub mod selection;
pub mod sketch;
pub mod solver;
pub mod text;
pub mod tools;
pub mod topology;
pub mod transaction;
