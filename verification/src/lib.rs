//! A geometric unistroke-gesture recognizer.
//!
//! A raw stroke — an ordered sequence of 2D sample points — is normalized
//! into a rotation-, scale-, and translation-invariant canonical form and
//! compared against stored templates with a golden-section search over the
//! rotation angle. All geometry is computed in saturating fixed-point
//! arithmetic ([`fx::Fx`]), whose results are specified exactly.

pub mod fx;
pub mod laws;
pub mod matcher;
pub mod path;
pub mod template;
pub mod trig;

pub use fx::{Fx, PathCoord};
pub use matcher::{find_matching_template, find_matching_template_with_defaults, Error};
pub use path::{Path2D, Point};
pub use template::{Template, TemplateError};
