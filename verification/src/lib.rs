//! Discovery and normalization of bootable cloud disk images from several
//! upstream repository formats, together with a progressive-narrowing
//! selection wizard and checksum verification of the downloaded artifact.
//!
//! The crate is organised around a single normalized artifact model
//! ([`image::Image`]): three provider parsers (Ubuntu Simplestreams
//! catalogs, Debian directory listings with detached checksum manifests,
//! AlmaLinux checksum manifests) each reduce their upstream format to a
//! list of such images, the selection wizard narrows that list to one
//! artifact, and the checksum module verifies the downloaded bytes.

pub mod almalinux;
pub mod catalog;
pub mod checksum;
pub mod debian;
pub mod error;
pub mod helpers;
pub mod html;
pub mod image;
pub mod listutil;
pub mod registry;
pub mod strutil;
pub mod ubuntu;
pub mod wizard;
