//! Functions that templates call.
use vstd::prelude::*;
use std::sync::{Arc, Mutex};
use crate::template::config::DynamicGlobalConfig;

verus! {

#[verifier::external_type_specification]
#[verifier::external_body]
#[verifier::reject_recursive_types(T)]
pub struct ExMutex<T: ?Sized>(std::sync::Mutex<T>);

/// The function through which a template sets the configuration shared
/// with the generator.
pub struct FunctionConfig {
    /// The configuration shared with the generator.
    pub config: Arc<Mutex<DynamicGlobalConfig>>,
}

impl FunctionConfig {
    /// A function that sets the given shared configuration.
    pub fn new(config: Arc<Mutex<DynamicGlobalConfig>>) -> (r: Self)
        ensures
            r.config == config,
    {
        FunctionConfig { config }
    }
}

} // verus!
