[package]
name = "machine_learning_with_rust"
version = "0.1.0"
edition = "2021"
publish = false

[dependencies]
linfa = "0.7"
linfa-datasets = { version = "0.7", features = ["winequality"] }
linfa-logistic = "0.7"
linfa-trees = "0.7"
ndarray = "0.15"
polars = { version = "0.35", default-features = false, features = ["csv", "fmt"] }
