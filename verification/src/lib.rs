//! A small library of verified, self-contained algorithm implementations:
//! an arbitrary-precision signed integer engine, fixed and dynamic matrix
//! utilities with graph algorithms, Hamming codes, string and search helpers.

pub mod limbs;
pub mod mul;
pub mod divmod;
pub mod bigint;
pub mod decimal;
pub mod laws;
pub mod matrix;
pub mod gcd;
pub mod binary_search;
pub mod vector;
pub mod dmatrix;
pub mod hc7;
pub mod hc15;
pub mod kmp;
pub mod strings;
pub mod de_bruijn;
pub mod dijkstra;
pub mod kruskal;
pub mod flood_fill;
pub mod reversort;
pub mod point;
pub mod tree;
pub mod join;
