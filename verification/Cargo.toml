[package]
name = "dep_obj"
version = "0.1.0"
edition = "2021"
publish = false

[dependencies]
boow = "=0.1.3"
components-arena = { version = "=4.2.3", default-features = false }
downcast = "=0.11.0"
dyn-clone = "=1.0.20"
dyn-context = "=0.19.5"
educe = "=0.8.1"
generics = "=0.5.3"
macro-attr-2018 = "=3.0.1"
memoffset = "=0.9.1"
paste = "=1.0.15"
phantom-type = "=0.5.2"
