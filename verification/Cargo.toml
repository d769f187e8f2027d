[package]
name = "grant_treasury"
version = "0.1.0"
edition = "2021"

[dependencies]
soroban-sdk = "*"
