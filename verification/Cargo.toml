[package]
name = "zkevm_circuits"
version = "0.1.0"
edition = "2021"
publish = false

[dependencies]
group = "=0.13.0"
halo2-axiom = "=0.5.3"
halo2curves = { version = "=0.6.1", default-features = false }
tiny-keccak = { version = "=2.0.2", features = ["keccak"] }

[dev-dependencies]
rand_core = "=0.6.4"
rand_xorshift = "=0.3.0"
