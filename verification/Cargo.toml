[package]
name = "roguelike"
version = "0.1.0"
edition = "2021"
publish = false

[dependencies]
coord_2d = "0.3"
direction = "0.18"
entity_table = "0.2"
spatial_table = "0.3"
shadowcast = "0.8"
rand = "0.8"
rand_isaac = "0.3"
rgb24 = "0.3"
chargrid = "0.4"
chargrid_graphical = "0.7"
simon = "0.4"
