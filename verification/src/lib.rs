//! Template-matching automation core.
//!
//! The heart of the crate is an image-correlation engine over fixed-point
//! single-channel images: six statistical matching methods produce a
//! correlation surface, extremum search and non-maximum suppression turn
//! surfaces into discrete matches, and policy matchers interpret them.
//! Around it stand the pure parts of the device-automation stack: debug
//! bridge command framing and parsing, controller command construction,
//! and the action data model. Everything that talks to a device or a file
//! lives with the callers; this crate computes.
use vstd::prelude::*;

pub mod image;
pub mod template_matching;
pub mod extraction;
pub mod matcher;
pub mod adb;
pub mod controller;
pub mod action;
pub mod actions;

use crate::controller::Controller;

verus! {

/// Something that owns a device controller.
pub trait HasController {
    fn controller(&self) -> &Controller;
}

} // verus!
