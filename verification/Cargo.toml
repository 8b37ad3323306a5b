[package]
name = "diffraction"
version = "0.1.0"
edition = "2021"
publish = false

[dependencies]
eframe = { version = "=0.32.3", default-features = false, features = ["default_fonts", "glow", "x11"] }
egui = "=0.32.3"
egui_extras = { version = "=0.32.3", default-features = false }
egui_plot = "0.33"
egui-plotter = "=0.6.0"
fresnel = "=0.1.0"
plotters = "=0.3.7"
