//! What holds of the library as a whole, proved over the same specifications
//! that the contracts use.
pub mod browsing;
pub mod building;
pub mod deletion;
pub mod drawing;
pub mod exporting;
pub mod finding;
pub mod holding;
pub mod keys;
pub mod lines;
pub mod locating;
pub mod numbers;
pub mod paths;
pub mod remains;
pub mod scanning;
pub mod sorting;
pub mod steps;
pub mod views;
pub mod ways;
pub mod window;
