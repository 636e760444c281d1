//! A dependency injection and application framework core: component definition registries,
//! conditional registration, scopes, the component factory, application runner ordering,
//! configuration, migration and web-server decisions, and the derivation of components from
//! their declarations, each with a machine-checked contract.

pub mod error;
pub mod registry;
pub mod ordering;
pub mod conditional;
pub mod component_registry;
pub mod scope;
pub mod factory;
pub mod component;
pub mod instance_provider;
pub mod config;
pub mod runner;
pub mod application;
pub mod migration;
pub mod web;
pub mod attributes;
pub mod derivation;
