[package]
name = "class_members"
version = "0.1.0"
edition = "2021"
publish = false

[dependencies]
fxhash = "=0.2.1"
petgraph = "=0.6.5"
serde = "=1.0.219"
swc_fast_graph = "=9.0.0"
swc_graph_analyzer = "=14.0.2"
swc_atoms = "=5.0.0"
swc_common = "=8.1.1"
swc_ecma_ast = "8"
