use dithered_scene::pass::{main_pass_load, ClearColorChoice, PassLoad};

#[test]
fn default_clear_uses_world_color() {
    assert!(matches!(main_pass_load::<u32>(ClearColorChoice::Default), PassLoad::ClearWithWorldColor));
}

#[test]
fn custom_clear_uses_its_color() {
    assert!(matches!(main_pass_load(ClearColorChoice::Custom(0xff00ffu32)), PassLoad::Clear(0xff00ff)));
}

#[test]
fn no_clear_loads_the_target() {
    assert!(matches!(main_pass_load::<u32>(ClearColorChoice::NoClear), PassLoad::Load));
}
