use rustc_hash::FxBuildHasher;
use std::hash::BuildHasher;
use wgpui::{id_from_label, Context, Id};

#[test]
fn same_scope_and_label_give_the_same_id() {
    let a = id_from_label(Id(7), "button");
    let b = id_from_label(Id(7), "button");
    assert_eq!(a, b);
    let c = id_from_label(Id::null(), "button");
    let d = id_from_label(Id::null(), "button");
    assert_eq!(c, d);
}

#[test]
fn the_scope_and_the_label_both_count() {
    let plain = id_from_label(Id::null(), "a");
    let scoped = id_from_label(Id(1), "a");
    let other = id_from_label(Id(2), "a");
    assert_ne!(plain, scoped);
    assert_ne!(scoped, other);
    assert_ne!(id_from_label(Id(1), "a"), id_from_label(Id(1), "b"));
    // the identity is a digest, not one of the arguments
    assert_ne!(scoped, Id(1));
}

#[test]
fn the_id_is_the_fx_digest_raised_off_zero() {
    let digest = FxBuildHasher.hash_one("save");
    assert_eq!(id_from_label(Id::null(), "save"), Id(digest.max(1)));
    let digest = FxBuildHasher.hash_one((42u64, "save"));
    assert_eq!(id_from_label(Id(42), "save"), Id(digest.max(1)));
}

#[test]
fn the_empty_label_is_not_the_reserved_id() {
    assert!(!id_from_label(Id::null(), "").is_null());
    assert!(!id_from_label(Id(9), "").is_null());
    assert!(Id::null().is_null());
    assert_eq!(Id::from_hash(0), Id(1));
    assert_eq!(Id::from_hash(17), Id(17));
}

#[test]
fn ids_are_stable_across_frames() {
    let mut ui = Context::new();
    ui.begin_frame();
    let first = ui.gen_id("panel");
    ui.end_frame().unwrap();
    ui.begin_frame();
    let second = ui.gen_id("panel");
    ui.end_frame().unwrap();
    assert_eq!(first, second);
}

#[test]
fn scopes_nest_and_unwind() {
    let mut ui = Context::new();
    let outer = ui.gen_id("x");
    ui.push_id(Id(5));
    let inner = ui.gen_id("x");
    assert_eq!(inner, id_from_label(Id(5), "x"));
    assert_ne!(inner, outer);
    assert_eq!(ui.pop_id(), Id(5));
    assert_eq!(ui.gen_id("x"), outer);
    assert_eq!(ui.pop_id(), Id::null());
}
