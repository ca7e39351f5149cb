[package]
name = "rubikmaster"
version = "0.1.0"
edition = "2021"
publish = false

[dependencies]
rand = "0.8"
once_cell = "1"
yew = "0.18"
wasm-bindgen = "0.2"
js-sys = "0.3"
nalgebra-glm = "*"
web-sys = { version = "0.3", features = ["HtmlCanvasElement", "WebGl2RenderingContext", "WebGlBuffer", "WebGlProgram", "WebGlShader", "WebGlUniformLocation"] }

[dev-dependencies]
nom = "7"
