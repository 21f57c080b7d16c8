[package]
name = "proximity"
version = "0.1.0"
edition = "2021"
publish = false

[dependencies]
rstar = "*"
rayon = "*"
csv = "*"
geo = "*"
geojson = "*"
indicatif = "*"
plotters = "*"
