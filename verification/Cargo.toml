[package]
name = "mapped_btree"
version = "0.1.0"
edition = "2021"
publish = false

[dependencies]
futex = "=0.1.1"
mappedheap = "=0.1.1"
