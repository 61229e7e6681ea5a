[package]
name = "native_certs"
version = "0.1.0"
edition = "2021"
publish = false

[dependencies]
rustls-pemfile = "1"
rustls-native-certs = "*"
dlopen2 = "*"
dlopen2_derive = "*"
once_cell = "*"
