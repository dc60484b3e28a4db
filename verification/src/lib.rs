//! Subscription link generation: proxy server descriptors rendered as the
//! URI strings that proxy clients import, with the contracts of every
//! rendering step checked by Verus.

pub mod default_config;
pub mod model;
