//! Exact piecewise cubic-Bezier curve algebra.
//!
//! Curves live on an integer grid: every coordinate is an `i64`
//! numerator over a positive denominator, and curve parameters are
//! exact fractions.  Evaluation, subdivision and the reparameterization
//! tables are therefore exact integer arithmetic, and their contracts
//! pin the results down as polynomials over the control points.

pub mod angleparameterization;
pub mod arclenparameterization;
pub mod bezier;
pub mod continuity;
pub mod interpolator;
pub mod nums;
pub mod pattern;
pub mod piecewise;
pub mod rect;
pub mod search;
pub mod vector;

pub use nums::Frac;
pub use nums::RatPoint;
pub use vector::Vector;
pub use bezier::Bezier;
pub use rect::Rect;
pub use rect::FlipIfRequired;
pub use search::SearchError;
pub use piecewise::Piecewise;
pub use piecewise::SegmentIterator;
pub use arclenparameterization::ArcLengthParameterization;
pub use angleparameterization::AngleParameterization;
pub use interpolator::Interpolator;
pub use interpolator::InterpolationType;
pub use pattern::PatternCopies;
pub use pattern::PatternSubdivide;
