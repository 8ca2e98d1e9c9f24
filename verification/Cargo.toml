[package]
name = "continuum"
version = "0.1.0"
edition = "2021"
publish = false

[dependencies]
zip = "2"
natord = "1"
image = { version = "0.25", default-features = false, features = ["png", "jpeg", "gif", "webp", "bmp"] }
serde_json = "1"
rayon = "1"
crossbeam-channel = "0.5"
gtk4 = "0.9"
gdk4 = "0.9"
glib = "0.20"
gio = "0.20"
gdk-pixbuf = "0.20"
libadwaita = "0.7"
qmetaobject = "0.2"
cpp = "0.5"
