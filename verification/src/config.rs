//! The application's settings.

use vstd::prelude::*;
use crate::agent::provider::LLMProviderConfig;

verus! {

/// The model to use and how to reach it.
pub struct AppConfig {
    pub model: String,
    pub provider: LLMProviderConfig,
}

} // verus!
