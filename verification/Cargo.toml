[package]
name = "sudoku_solver_lib"
version = "0.1.0"
edition = "2021"
publish = false

[dependencies]
rand = "0.8"
serde = { version = "1", features = ["derive"] }
actix-web = { version = "4", default-features = false, features = ["macros"] }
actix-files = "0.6"
env_logger = "0.10"
wasm-bindgen = "0.2"
