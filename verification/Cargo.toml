[package]
name = "mini_clmm"
version = "0.1.0"
edition = "2021"
publish = false

[dependencies]
borsh = { version = "=1.8.1", features = ["derive"] }
bytemuck = "=1.25.2"
solana-account-info = "=2.3.0"
solana-msg = "=2.2.1"
solana-program-entrypoint = "=2.3.0"
solana-program-error = "=2.2.2"
solana-pubkey = { version = "=2.4.0", features = ["borsh"] }
thiserror = "=2.0.21"
