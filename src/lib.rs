//! Ant Colony Optimization for the symmetric Travelling Salesperson Problem:
//! the verified core (matrices, instances, ant tours, result log and the
//! integer decisions of the colonies, and the TSPLIB reader).

pub mod ant;
pub mod city_set;
pub mod distance;
pub mod instance_data;
pub mod matrix;
pub mod parameters;
pub mod result_log;
pub mod runner;
pub mod tsplib;
