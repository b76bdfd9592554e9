[package]
name = "marketlab"
version = "0.1.0"
edition = "2021"
publish = false

[dependencies]
thiserror = "=1.0.69"
petgraph = "=0.6.5"
rayon = "=1.12.0"
nalgebra = "=0.33.3"
clifford = "=0.3.0"
vector-ta = "=0.3.1"
openusd = "0.3"
