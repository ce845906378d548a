//! Blaze server-side helpers.

pub mod connection_info_coalesce;
