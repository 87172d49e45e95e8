//! Resolution of cart bundles: which cart lines merge into a discounted
//! parent line, under a catalog of bundling rules.
//!
//! Two matching strategies share the cart and operation types of `cart`:
//! `item_set`, where rules name the items they need, and `grouped`, where
//! lines are grouped by a tag and each group's size picks its rule.
pub mod cart;
pub mod grouped;
pub mod item_set;
pub mod text;
