//! The unit library of a hardware-test runner: unit names, descriptions and
//! loaded units, the registry that reconciles them, and the line protocol of
//! interface processes.

pub mod config;
pub mod libraryinvariant;
pub mod librarylaws;
pub mod librarymodel;
pub mod text;
pub mod unit;
pub mod unitbroadcaster;
pub mod unitfile;
pub mod unitlibrary;
pub mod unitmanager;
pub mod units;
pub mod unittable;
