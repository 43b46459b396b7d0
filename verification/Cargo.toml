[package]
name = "leptos_ssr_lazy"
version = "0.1.0"
edition = "2021"
publish = false

[dependencies]
leptos = "0.8"
leptos_meta = "0.8"
leptos_router = "0.8"
leptos-fluent = "*"
leptos-use = "*"
