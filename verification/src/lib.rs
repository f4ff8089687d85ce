//! Geoid height grid models for Japan: a compact binary codec with spatial
//! predictive delta coding, a parser for the plain-text survey grid format,
//! and a bilinear interpolation query engine over the grid samples.

pub mod gsi;
